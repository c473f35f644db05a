//! Properties of the library that span its functions, stated over the
//! specifications their contracts use.
use vstd::prelude::*;

use crate::budget::{budget_victims, is_stub_entry, result_size, result_sizes, sum_sizes, STUB_LEN};
use crate::ranking::{is_desc_order, listed};
use crate::deferred::{is_ranking, keyword_points, ranks_before, score, scores_of, DeferredTool};
use crate::edits::{count_from, match_count, replace_from, replaced};
use crate::guardrails::{guard_verdict, Guard, GuardrailConfig};
use crate::json::{JsonDoc, JsonValue};
use crate::parallel::{conflict, parallel_ok, CallTraits};
use crate::permission::{
    first_matching_rule, permission_verdict, plan_deny_message, PermissionConfig, PermissionMode,
    PermissionSubject, Verdict,
};
use crate::content::binary_bytes;
use crate::readfile::{content_hash_of, text_file_view, text_read_view, FileCache};
use crate::limits::{limit_from, limited, with_line, OutputLimits};
use crate::scan::{
    entries_for, first_hits, hit_entries, hit_lines, joined_lines, report_text, scan_step, skipped_in, SearchScan,
};
use crate::text::{contains_seq, decimal, ends_with_seq, eq_ascii_nocase, lowercase, starts_with_seq, trim};
use crate::security::{critical_patterns, danger_of, first_hit, rm_root_target, warning_patterns, Danger};
use crate::permission::{rule_matches, DecisionReason};
use crate::deferred::points_sum;
use crate::todo::{first_with_id, without_id};
use crate::search::{filter_admits, glob_name_matches};
use crate::text::{lemma_truncate_bytes_fits, lemma_utf8_len_add, lines_of, occurs_at, truncate_bytes, utf8_len};
use crate::tool::{cut_with_marker, truncated_result_text, Permission, ToolResult};

verus! {

// ---------------------------------------------------------------------------
// Guardrails
// ---------------------------------------------------------------------------

/// A call of a tool that has not reached its consecutive-call limit, whose
/// exact call has failed fewer times than the warning and blocking
/// thresholds and whose tool shows fewer no-progress calls than allowed, is
/// let through.
pub proof fn law_fresh_call_allowed(cfg: GuardrailConfig, name: Seq<char>, streak: nat, failures: nat, stalls: nat)
    requires
        streak < cfg.same_tool_halt_after,
        failures < cfg.exact_failure_warn_after,
        failures < cfg.exact_failure_block_after,
        stalls < cfg.no_progress_block_after,
    ensures
        guard_verdict(cfg, name, streak, failures, stalls) == Guard::Allow,
{
}

/// Repeated failures of the same call escalate: from the warning threshold
/// on the call is warned about, from the blocking threshold on it is
/// blocked (below the consecutive-call limit).
pub proof fn law_failures_escalate(cfg: GuardrailConfig, name: Seq<char>, streak: nat, failures: nat, stalls: nat)
    requires
        streak < cfg.same_tool_halt_after,
    ensures
        failures >= cfg.exact_failure_block_after ==> guard_verdict(cfg, name, streak, failures, stalls) is Block,
        cfg.exact_failure_warn_after <= failures < cfg.exact_failure_block_after ==> guard_verdict(
            cfg,
            name,
            streak,
            failures,
            stalls,
        ) is Warn,
{
}

/// A tool called its limit of consecutive times is blocked, whatever its
/// failures.
pub proof fn law_streak_halts(cfg: GuardrailConfig, name: Seq<char>, streak: nat, failures: nat, stalls: nat)
    requires
        streak >= cfg.same_tool_halt_after,
    ensures
        guard_verdict(cfg, name, streak, failures, stalls) is Block,
{
}

/// With the default thresholds, two failures of a call bring a warning and
/// five a block.
pub proof fn law_default_thresholds(name: Seq<char>, streak: nat, stalls: nat)
    requires
        streak < 8,
    ensures
        ({
            let cfg = GuardrailConfig {
                exact_failure_warn_after: 2,
                exact_failure_block_after: 5,
                same_tool_halt_after: 8,
                no_progress_block_after: 5,
            };
            &&& guard_verdict(cfg, name, streak, 2, stalls) is Warn
            &&& guard_verdict(cfg, name, streak, 4, stalls) is Warn
            &&& guard_verdict(cfg, name, streak, 5, stalls) is Block
        }),
{
}

// ---------------------------------------------------------------------------
// Permissions
// ---------------------------------------------------------------------------

/// In plan mode a tool that is not read-only is denied, whatever the
/// configuration says.
pub proof fn law_plan_mode_denies_writes(tool: PermissionSubject, args: JsonDoc, config: Option<PermissionConfig>)
    requires
        !tool.read_only,
    ensures
        permission_verdict(tool, args, true, config) == Verdict::Deny(plan_deny_message(tool.name@)),
{
}

/// A matching deny rule wins over every allow rule and every mode.
pub proof fn law_deny_rules_first(tool: PermissionSubject, args: JsonDoc, plan_mode: bool, cfg: PermissionConfig)
    requires
        !(plan_mode && !tool.read_only),
        first_matching_rule(cfg.always_deny@, tool.name@, args.value) is Some,
    ensures
        permission_verdict(tool, args, plan_mode, Some(cfg)) is Deny,
{
}

/// Bypass mode allows every call that no deny rule matches (outside plan
/// mode's block on writes).
pub proof fn law_bypass_allows(tool: PermissionSubject, args: JsonDoc, plan_mode: bool, cfg: PermissionConfig)
    requires
        !(plan_mode && !tool.read_only),
        first_matching_rule(cfg.always_deny@, tool.name@, args.value) is None,
        cfg.mode == PermissionMode::BypassPermissions,
    ensures
        permission_verdict(tool, args, plan_mode, Some(cfg)) is Allow,
{
}

/// A tool whose own level is `Auto` is never put to the user.
pub proof fn law_auto_never_asks(tool: PermissionSubject, args: JsonDoc, plan_mode: bool, config: Option<PermissionConfig>)
    requires
        tool.permission == Permission::Auto,
    ensures
        !(permission_verdict(tool, args, plan_mode, config) is Ask),
{
}

// ---------------------------------------------------------------------------
// Truncation
// ---------------------------------------------------------------------------

/// Cutting text to a byte budget keeps a prefix that fits the budget.
pub proof fn law_cut_fits(s: Seq<char>, max: nat)
    ensures
        utf8_len(truncate_bytes(s, max)) <= max,
        truncate_bytes(s, max) == s.take(truncate_bytes(s, max).len() as int),
{
    lemma_truncate_bytes_fits(s, max);
}

/// Text that fits its budget is left as it is.
pub proof fn law_cut_keeps_fitting_text(s: Seq<char>, max: nat)
    requires
        utf8_len(s) <= max,
    ensures
        truncate_bytes(s, max) == s,
{
    if s.len() > 0 {
        assert(truncate_bytes(s, max) == s);
    }
}

/// A result cut to `max` bytes holds at most `max` bytes of its text plus
/// the 12-byte marker.
pub proof fn law_truncated_result_bounded(r: ToolResult, max: nat)
    ensures
        truncated_result_text(r, max) matches Some(t) ==> utf8_len(t) <= max + 12,
{
    match r {
        ToolResult::Text(s) => {
            if utf8_len(s@) > max {
                lemma_truncate_bytes_fits(s@, max);
                lemma_utf8_len_add(truncate_bytes(s@, max), "\n[truncated]"@);
                marker_len();
            }
        },
        ToolResult::Json(d) => {
            if utf8_len(d.text@) > max {
                lemma_truncate_bytes_fits(d.text@, max);
                lemma_utf8_len_add(truncate_bytes(d.text@, max), "\n[truncated]"@);
                marker_len();
            }
        },
        _ => {},
    }
}

proof fn marker_len()
    ensures
        utf8_len("\n[truncated]"@) == 12,
{
    reveal_strlit("\n[truncated]");
    reveal_with_fuel(utf8_len, 13);
}

proof fn limit_marker_len()
    ensures
        utf8_len("\n[truncated: line limit reached]"@) == 32,
        utf8_len("\n[truncated: byte limit reached]"@) == 32,
{
    reveal_strlit("\n[truncated: line limit reached]");
    reveal_strlit("\n[truncated: byte limit reached]");
    reveal_with_fuel(utf8_len, 33);
}

proof fn lemma_limit_from_bounded(lines: Seq<Seq<char>>, idx: int, acc: Seq<char>, lim: OutputLimits)
    requires
        0 <= idx,
        utf8_len(acc) < lim.max_bytes || acc.len() == 0,
    ensures
        utf8_len(limit_from(lines, idx, acc, lim)) <= lim.max_bytes + 32,
    decreases lines.len() - idx,
{
    limit_marker_len();
    if idx >= lines.len() {
    } else if idx >= lim.max_lines {
        lemma_utf8_len_add(acc, "\n[truncated: line limit reached]"@);
    } else {
        let next = with_line(acc, lines[idx], lim.max_line_length as nat, idx == 0);
        if utf8_len(next) >= lim.max_bytes {
            lemma_truncate_bytes_fits(next, lim.max_bytes as nat);
            lemma_utf8_len_add(truncate_bytes(next, lim.max_bytes as nat), "\n[truncated: byte limit reached]"@);
        } else {
            lemma_limit_from_bounded(lines, idx + 1, next, lim);
        }
    }
}

/// Truncated output holds at most `max_bytes` bytes plus one 32-byte
/// truncation marker.
pub proof fn law_limited_output_bounded(output: Seq<char>, lim: OutputLimits)
    ensures
        utf8_len(limited(output, lim)) <= lim.max_bytes + 32,
{
    lemma_limit_from_bounded(lines_of(output), 0, Seq::empty(), lim);
}

proof fn lemma_joined_take_shorter(lines: Seq<Seq<char>>, k: int)
    requires
        1 <= k <= lines.len(),
    ensures
        utf8_len(joined_lines(lines.take(k))) <= utf8_len(joined_lines(lines)),
    decreases lines.len(),
{
    if k == lines.len() {
        assert(lines.take(k) =~= lines);
    } else {
        let d = lines.drop_last();
        assert(d.take(k) =~= lines.take(k));
        lemma_joined_take_shorter(d, k);
        lemma_utf8_len_add(joined_lines(d) + "\n"@, lines.last());
        lemma_utf8_len_add(joined_lines(d), "\n"@);
    }
}

proof fn lemma_limit_from_keeps(lines: Seq<Seq<char>>, idx: int, acc: Seq<char>, lim: OutputLimits)
    requires
        0 <= idx <= lines.len(),
        lines.len() <= lim.max_lines,
        forall|i: int| 0 <= i < lines.len() ==> utf8_len(#[trigger] lines[i]) <= lim.max_line_length,
        utf8_len(joined_lines(lines)) < lim.max_bytes,
        acc == joined_lines(lines.take(idx)),
    ensures
        limit_from(lines, idx, acc, lim) == joined_lines(lines),
    decreases lines.len() - idx,
{
    if idx == lines.len() {
        assert(lines.take(idx) =~= lines);
    } else {
        let line = lines[idx];
        law_cut_keeps_fitting_text(line, lim.max_line_length as nat);
        let next = with_line(acc, line, lim.max_line_length as nat, idx == 0);
        let t1 = lines.take(idx + 1);
        assert(t1.drop_last() =~= lines.take(idx));
        assert(t1.last() == line);
        if idx == 0 {
            assert(acc.len() == 0);
            assert(next =~= line);
            assert(joined_lines(t1) == line);
        } else {
            reveal_strlit("\n");
            assert(next =~= acc + "\n"@ + line);
        }
        assert(next == joined_lines(t1));
        lemma_joined_take_shorter(lines, idx + 1);
        lemma_limit_from_keeps(lines, idx + 1, next, lim);
    }
}

/// Output within every limit comes back as its lines joined by newlines:
/// nothing is cut, no line is dropped and no marker is added.
pub proof fn law_limits_keep_fitting_output(output: Seq<char>, lim: OutputLimits)
    requires
        lines_of(output).len() <= lim.max_lines,
        forall|i: int| 0 <= i < lines_of(output).len() ==> utf8_len(#[trigger] lines_of(output)[i]) <= lim.max_line_length,
        utf8_len(joined_lines(lines_of(output))) < lim.max_bytes,
    ensures
        limited(output, lim) == joined_lines(lines_of(output)),
{
    let lines = lines_of(output);
    assert(lines.take(0) =~= Seq::<Seq<char>>::empty());
    lemma_limit_from_keeps(lines, 0, Seq::empty(), lim);
}

// ---------------------------------------------------------------------------
// Deferred tool search
// ---------------------------------------------------------------------------

/// Every tool a keyword search returns matches every keyword somewhere in
/// its name, hints or description.
pub proof fn law_results_match_every_keyword(tools: Seq<DeferredTool>, kws: Seq<Seq<char>>, order: Seq<usize>, k: int, j: int)
    requires
        is_ranking(scores_of(tools, kws), order),
        0 <= k < order.len(),
        0 <= j < kws.len(),
    ensures
        keyword_points(tools[order[k] as int], kws[j]) > 0,
{
    let i = order[k] as int;
    assert(scores_of(tools, kws)[i] > 0);
    assert(score(tools[i], kws) > 0);
}

/// A ranking of scores is unique: the order of the results of a search is
/// fully determined by the scores.
pub proof fn law_ranking_unique(scores: Seq<nat>, o1: Seq<usize>, o2: Seq<usize>)
    requires
        is_ranking(scores, o1),
        is_ranking(scores, o2),
    ensures
        o1 == o2,
{
    lemma_ranking_prefix(scores, o1, o2, 0);
    let n = if o1.len() <= o2.len() {
        o1.len()
    } else {
        o2.len()
    };
    if o1.len() > n {
        let x = o1[n as int] as int;
        let m = choose|m: int| 0 <= m < o2.len() && #[trigger] o2[m] == x;
        assert(o1[m] == o2[m]);
        assert(ranks_before(scores, o1[m] as int, o1[n as int] as int));
    }
    if o2.len() > n {
        let x = o2[n as int] as int;
        let m = choose|m: int| 0 <= m < o1.len() && #[trigger] o1[m] == x;
        assert(o1[m] == o2[m]);
        assert(ranks_before(scores, o2[m] as int, o2[n as int] as int));
    }
    assert(o1 =~= o2);
}

proof fn lemma_ranking_prefix(scores: Seq<nat>, o1: Seq<usize>, o2: Seq<usize>, k: int)
    requires
        is_ranking(scores, o1),
        is_ranking(scores, o2),
        0 <= k,
        forall|j: int| 0 <= j < k && j < o1.len() && j < o2.len() ==> o1[j] == o2[j],
    ensures
        forall|j: int| 0 <= j < o1.len() && j < o2.len() ==> o1[j] == o2[j],
    decreases (if o1.len() >= k { o1.len() - k } else { 0 }),
{
    if k < o1.len() && k < o2.len() {
        let a = o1[k] as int;
        let b = o2[k] as int;
        if a != b {
            let m = choose|m: int| 0 <= m < o1.len() && #[trigger] o1[m] == b;
            let m2 = choose|m: int| 0 <= m < o2.len() && #[trigger] o2[m] == a;
            if m < k {
                assert(o2[m] == b);
                assert(ranks_before(scores, o2[m] as int, o2[k] as int));
            }
            if m2 < k {
                assert(o1[m2] == a);
                assert(ranks_before(scores, o1[m2] as int, o1[k] as int));
            }
            assert(ranks_before(scores, o1[k] as int, o1[m] as int));
            assert(ranks_before(scores, o2[k] as int, o2[m2] as int));
        }
        lemma_ranking_prefix(scores, o1, o2, k + 1);
    }
}

// ---------------------------------------------------------------------------
// Concurrency
// ---------------------------------------------------------------------------

/// Whether two calls conflict does not depend on their order.
pub proof fn law_conflict_symmetric(a: JsonValue, b: JsonValue)
    ensures
        conflict(a, b) == conflict(b, a),
{
}

/// A batch of two or more calls with one that is not safe to run
/// concurrently (such as a shell command) runs sequentially.
pub proof fn law_unsafe_call_serializes(calls: Seq<CallTraits>, i: int)
    requires
        calls.len() >= 2,
        0 <= i < calls.len(),
        !calls[i].concurrency_safe,
    ensures
        !parallel_ok(calls),
{
}

/// Two writing calls on the same path never run together.
pub proof fn law_same_path_serializes(calls: Seq<CallTraits>, i: int, j: int)
    requires
        0 <= i < j < calls.len(),
        !calls[i].read_only,
        !calls[j].read_only,
        crate::json::str_field(calls[i].args, "path"@) is Some,
        crate::json::str_field(calls[i].args, "path"@) == crate::json::str_field(calls[j].args, "path"@),
    ensures
        !parallel_ok(calls),
{
    assert(conflict(calls[i].args, calls[j].args));
}

// ---------------------------------------------------------------------------
// Editing
// ---------------------------------------------------------------------------

proof fn lemma_replace_limit_irrelevant(h: Seq<char>, n: Seq<char>, t: Seq<char>, from: int, l1: nat, l2: nat)
    requires
        n.len() > 0,
        0 <= from,
        l1 >= count_from(h, n, from),
        l2 >= count_from(h, n, from),
    ensures
        replace_from(h, n, t, from, l1) == replace_from(h, n, t, from, l2),
    decreases h.len() + 1 - from,
{
    if from < h.len() {
        if occurs_at(h, n, from) {
            lemma_replace_limit_irrelevant(h, n, t, from + n.len(), (l1 - 1) as nat, (l2 - 1) as nat);
        } else {
            if l1 == 0 || l2 == 0 {
                lemma_no_count_no_change(h, n, t, from, l1);
                lemma_no_count_no_change(h, n, t, from, l2);
            } else {
                lemma_replace_limit_irrelevant(h, n, t, from + 1, l1, l2);
            }
        }
    }
}

proof fn lemma_no_count_no_change(h: Seq<char>, n: Seq<char>, t: Seq<char>, from: int, l: nat)
    requires
        n.len() > 0,
        0 <= from,
        count_from(h, n, from) == 0,
    ensures
        replace_from(h, n, t, from, l) == if from < h.len() {
            h.skip(from)
        } else {
            Seq::empty()
        },
    decreases h.len() + 1 - from,
{
    if from < h.len() && l > 0 {
        lemma_no_count_no_change(h, n, t, from + 1, l);
        if from + 1 < h.len() {
            assert(h.skip(from) =~= seq![h[from]] + h.skip(from + 1));
        } else {
            assert(h.skip(from) =~= seq![h[from]]);
        }
    }
}

proof fn lemma_count_le_len(h: Seq<char>, n: Seq<char>, from: int)
    requires
        n.len() > 0,
        0 <= from,
    ensures
        count_from(h, n, from) <= if from < h.len() { h.len() - from } else { 0 },
    decreases h.len() + 1 - from,
{
    if from < h.len() {
        if occurs_at(h, n, from) {
            lemma_count_le_len(h, n, from + n.len());
        } else {
            lemma_count_le_len(h, n, from + 1);
        }
    }
}

/// When the string occurs exactly once, replacing all occurrences and
/// replacing the first give the same text.
pub proof fn law_single_match_replace_all_is_replace_first(h: Seq<char>, n: Seq<char>, t: Seq<char>)
    requires
        match_count(h, n) == 1,
    ensures
        replaced(h, n, t, true) == replaced(h, n, t, false),
{
    if n.len() > 0 {
        lemma_count_le_len(h, n, 0);
        lemma_replace_limit_irrelevant(h, n, t, 0, (h.len() + 1) as nat, 1);
    }
}

// ---------------------------------------------------------------------------
// Result budget
// ---------------------------------------------------------------------------

/// The bytes that stubs reclaim from the results at `victims`.
pub open spec fn reclaimed(sizes: Seq<nat>, victims: Seq<int>) -> int
    decreases victims.len(),
{
    if victims.len() == 0 {
        0
    } else {
        (sizes[victims[0]] - STUB_LEN) + reclaimed(sizes, victims.drop_first())
    }
}

/// The budget is met where it can be: the results it replaces reclaim at
/// least the excess, unless every result it leaves is no larger than the
/// stub.
pub proof fn law_budget_covers_excess(sizes: Seq<nat>, order: Seq<usize>, excess: int)
    requires
        forall|k: int| 0 <= k < order.len() ==> order[k] < sizes.len(),
    ensures
        ({
            let v = budget_victims(sizes, order, excess);
            reclaimed(sizes, v) >= excess || forall|k: int|
                0 <= k < order.len() && !v.contains(order[k] as int) ==> sizes[order[k] as int] <= STUB_LEN
        }),
    decreases order.len(),
{
    if order.len() > 0 && excess > 0 {
        let rest = order.drop_first();
        let s = sizes[order[0] as int];
        let next = if s <= STUB_LEN { excess } else { excess - (s - STUB_LEN) };
        law_budget_covers_excess(sizes, rest, next);
        let rv = budget_victims(sizes, rest, next);
        let v = budget_victims(sizes, order, excess);
        if s > STUB_LEN {
            assert(v == seq![order[0] as int] + rv);
            assert(v.drop_first() =~= rv);
            assert(v[0] == order[0] as int);
            assert forall|k: int| 1 <= k < order.len() && !v.contains(order[k] as int) implies !rv.contains(
                rest[k - 1] as int,
            ) by {
                assert(rest[k - 1] == order[k]);
                if rv.contains(rest[k - 1] as int) {
                    let j = choose|j: int| 0 <= j < rv.len() && rv[j] == rest[k - 1] as int;
                    assert(v[j + 1] == rv[j]);
                }
            }
        } else {
            assert(v == rv);
        }
        assert forall|k: int| 1 <= k < order.len() implies #[trigger] order[k] == rest[k - 1] by {}
    }
}

/// The sizes once the results at `victims` are replaced by the stub.
pub open spec fn sizes_after(sizes: Seq<nat>, victims: Seq<int>) -> Seq<nat> {
    Seq::new(sizes.len(), |i: int| if victims.contains(i) { STUB_LEN as nat } else { sizes[i] })
}

/// `order` ranks its positions strictly: larger first, ties by position.
spec fn strictly_ranked(sizes: Seq<nat>, order: Seq<usize>) -> bool {
    &&& forall|k: int| 0 <= k < order.len() ==> 0 <= #[trigger] order[k] < sizes.len()
    &&& forall|a: int, b: int|
        0 <= a < b < order.len() ==> ranks_before(sizes, #[trigger] order[a] as int, #[trigger] order[b] as int)
}

proof fn lemma_ranked_rest(sizes: Seq<nat>, order: Seq<usize>)
    requires
        order.len() > 0,
        strictly_ranked(sizes, order),
    ensures
        strictly_ranked(sizes, order.drop_first()),
        forall|k: int| 0 <= k < order.len() - 1 ==> #[trigger] order.drop_first()[k] != order[0],
{
    let r = order.drop_first();
    assert forall|a: int, b: int| 0 <= a < b < r.len() implies ranks_before(sizes, #[trigger] r[a] as int, #[trigger] r[b] as int) by {
        assert(r[a] == order[a + 1] && r[b] == order[b + 1]);
    }
    assert forall|k: int| 0 <= k < order.len() - 1 implies #[trigger] r[k] != order[0] by {
        assert(r[k] == order[k + 1]);
        assert(ranks_before(sizes, order[0] as int, order[k + 1] as int));
    }
}

/// The replaced positions are distinct positions of `order`, each larger
/// than the stub; and a replaced position has every position ranked before
/// it that is larger than the stub replaced too.
proof fn lemma_victims_shape(sizes: Seq<nat>, order: Seq<usize>, excess: int)
    requires
        strictly_ranked(sizes, order),
    ensures
        ({
            let v = budget_victims(sizes, order, excess);
            &&& v.no_duplicates()
            &&& forall|x: int| #[trigger] v.contains(x) ==> exists|k: int| 0 <= k < order.len() && order[k] == x
            &&& forall|x: int| #[trigger] v.contains(x) ==> 0 <= x < sizes.len() && sizes[x] > STUB_LEN
            &&& forall|k: int, m: int|
                0 <= k < m < order.len() && v.contains(#[trigger] order[m] as int) && sizes[#[trigger] order[k] as int]
                    > STUB_LEN ==> v.contains(order[k] as int)
        }),
    decreases order.len(),
{
    let v = budget_victims(sizes, order, excess);
    if order.len() == 0 || excess <= 0 {
        assert(v =~= Seq::<int>::empty());
    } else {
        let rest = order.drop_first();
        lemma_ranked_rest(sizes, order);
        let o0 = order[0] as int;
        let e2 = if sizes[o0] <= STUB_LEN { excess } else { excess - (sizes[o0] - STUB_LEN) };
        lemma_victims_shape(sizes, rest, e2);
        let rv = budget_victims(sizes, rest, e2);
        assert forall|k: int| 0 <= k < rest.len() implies #[trigger] rest[k] == order[k + 1] by {}
        if sizes[o0] <= STUB_LEN {
            assert(v == rv);
            assert forall|x: int| #[trigger] v.contains(x) implies exists|k: int| 0 <= k < order.len() && order[k] == x by {
                let k = choose|k: int| 0 <= k < rest.len() && rest[k] == x;
                assert(order[k + 1] == x);
            }
            assert forall|k: int, m: int|
                0 <= k < m < order.len() && v.contains(#[trigger] order[m] as int) && sizes[#[trigger] order[k] as int]
                    > STUB_LEN implies v.contains(order[k] as int) by {
                assert(k >= 1);
                assert(rest[m - 1] == order[m] && rest[k - 1] == order[k]);
            }
        } else {
            assert(v == seq![o0] + rv);
            assert forall|x: int| #[trigger] rv.contains(x) implies x != o0 by {
                let k = choose|k: int| 0 <= k < rest.len() && rest[k] == x;
            }
            assert(v.no_duplicates()) by {
                assert forall|a: int, b: int| 0 <= a < b < v.len() implies v[a] != v[b] by {
                    if a == 0 {
                        assert(rv.contains(v[b]));
                    } else {
                        assert(v[a] == rv[a - 1] && v[b] == rv[b - 1]);
                    }
                }
            }
            assert forall|x: int| #[trigger] v.contains(x) implies (exists|k: int| 0 <= k < order.len() && order[k] == x)
                && 0 <= x < sizes.len() && sizes[x] > STUB_LEN by {
                if x != o0 {
                    let j = choose|j: int| 0 <= j < v.len() && v[j] == x;
                    assert(rv[j - 1] == x);
                    assert(rv.contains(x));
                    let k = choose|k: int| 0 <= k < rest.len() && rest[k] == x;
                    assert(order[k + 1] == x);
                } else {
                    assert(order[0] == x);
                }
            }
            assert forall|k: int, m: int|
                0 <= k < m < order.len() && v.contains(#[trigger] order[m] as int) && sizes[#[trigger] order[k] as int]
                    > STUB_LEN implies v.contains(order[k] as int) by {
                assert(v[0] == o0);
                if k > 0 {
                    assert(rest[m - 1] == order[m] && rest[k - 1] == order[k]);
                    assert(order[m] as int != o0);
                    let j = choose|j: int| 0 <= j < v.len() && v[j] == order[m] as int;
                    assert(rv[j - 1] == order[m] as int);
                    assert(rv.contains(rest[m - 1] as int));
                    assert(rv.contains(order[k] as int));
                    let i = choose|i: int| 0 <= i < rv.len() && rv[i] == order[k] as int;
                    assert(v[i + 1] == rv[i]);
                }
            }
        }
    }
}

proof fn lemma_sum_update(s: Seq<nat>, i: int, x: nat)
    requires
        0 <= i < s.len(),
    ensures
        sum_sizes(s.update(i, x)) == sum_sizes(s) - s[i] + x,
    decreases s.len(),
{
    let u = s.update(i, x);
    if i == s.len() - 1 {
        assert(u.drop_last() =~= s.drop_last());
    } else {
        lemma_sum_update(s.drop_last(), i, x);
        assert(u.drop_last() =~= s.drop_last().update(i, x));
    }
}

/// With distinct victims, the total after the stubs is the old total less
/// what they reclaim.
proof fn lemma_sum_after(sizes: Seq<nat>, v: Seq<int>)
    requires
        v.no_duplicates(),
        forall|x: int| #[trigger] v.contains(x) ==> 0 <= x < sizes.len() && sizes[x] > STUB_LEN,
    ensures
        sum_sizes(sizes_after(sizes, v)) == sum_sizes(sizes) - reclaimed(sizes, v),
    decreases v.len(),
{
    if v.len() == 0 {
        assert(sizes_after(sizes, v) =~= sizes);
    } else {
        let x = v[0];
        let r = v.drop_first();
        assert(v.contains(x));
        let s1 = sizes.update(x, STUB_LEN as nat);
        assert forall|y: int| #[trigger] r.contains(y) implies 0 <= y < s1.len() && s1[y] > STUB_LEN && y != x by {
            let j = choose|j: int| 0 <= j < r.len() && r[j] == y;
            assert(v[j + 1] == y);
            assert(v.contains(y));
        }
        assert(r.no_duplicates()) by {
            assert forall|a: int, b: int| 0 <= a < b < r.len() implies r[a] != r[b] by {
                assert(v[a + 1] == r[a] && v[b + 1] == r[b]);
            }
        }
        lemma_sum_after(s1, r);
        lemma_sum_update(sizes, x, STUB_LEN as nat);
        assert(sizes_after(s1, r) =~= sizes_after(sizes, v)) by {
            assert forall|i: int| 0 <= i < sizes.len() implies #[trigger] sizes_after(s1, r)[i] == sizes_after(sizes, v)[i] by {
                if i == x {
                    assert(v.contains(i));
                } else if r.contains(i) {
                    let j = choose|j: int| 0 <= j < r.len() && r[j] == i;
                    assert(v[j + 1] == i);
                    assert(v.contains(i));
                } else {
                    if v.contains(i) {
                        let j = choose|j: int| 0 <= j < v.len() && v[j] == i;
                        assert(j > 0);
                        assert(r[j - 1] == i);
                    }
                }
            }
        }
        lemma_reclaimed_same(sizes, s1, r);
    }
}

proof fn lemma_reclaimed_same(a: Seq<nat>, b: Seq<nat>, v: Seq<int>)
    requires
        forall|x: int| #[trigger] v.contains(x) ==> a[x] == b[x],
    ensures
        reclaimed(a, v) == reclaimed(b, v),
    decreases v.len(),
{
    if v.len() > 0 {
        assert(v.contains(v[0]));
        assert forall|x: int| #[trigger] v.drop_first().contains(x) implies a[x] == b[x] by {
            let j = choose|j: int| 0 <= j < v.drop_first().len() && v.drop_first()[j] == x;
            assert(v[j + 1] == x);
            assert(v.contains(x));
        }
        lemma_reclaimed_same(a, b, v.drop_first());
    }
}

proof fn lemma_stub_size(e: (String, ToolResult), name: String)
    requires
        is_stub_entry(e, name),
    ensures
        result_size(e.1) == STUB_LEN,
{
    reveal_strlit("[Result truncated due to message budget]");
    reveal_with_fuel(utf8_len, 41);
}

/// When results exceed the budget, `enforce` keeps every name, replaces
/// only results larger than the stub, replaces larger results before
/// smaller ones, and ends within the budget unless every result larger than
/// the stub has been replaced.
pub proof fn law_budget_largest_first(old: Seq<(String, ToolResult)>, new: Seq<(String, ToolResult)>, max: nat)
    requires
        new.len() == old.len(),
        sum_sizes(result_sizes(old)) > max,
        exists|order: Seq<usize>|
            #![trigger is_desc_order(result_sizes(old), order)]
            is_desc_order(result_sizes(old), order) && {
                let victims = budget_victims(result_sizes(old), order, sum_sizes(result_sizes(old)) - max);
                forall|i: int|
                    0 <= i < old.len() ==> if victims.contains(i) {
                        is_stub_entry(#[trigger] new[i], old[i].0)
                    } else {
                        new[i] == old[i]
                    }
            },
    ensures
        forall|i: int| 0 <= i < old.len() ==> (#[trigger] new[i]).0 == old[i].0,
        forall|i: int|
            0 <= i < old.len() && #[trigger] new[i] != old[i] ==> result_size(old[i].1) > STUB_LEN && is_stub_entry(
                new[i],
                old[i].0,
            ),
        forall|i: int, j: int|
            0 <= i < old.len() && 0 <= j < old.len() && #[trigger] new[i] != old[i] && result_size(old[j].1)
                > result_size(old[i].1) ==> #[trigger] new[j] != old[j],
        sum_sizes(result_sizes(new)) <= max || forall|j: int|
            0 <= j < old.len() && result_size(old[j].1) > STUB_LEN ==> #[trigger] new[j] != old[j],
{
    let sz = result_sizes(old);
    let excess = sum_sizes(sz) - max;
    let order = choose|order: Seq<usize>|
        #![trigger is_desc_order(result_sizes(old), order)]
        is_desc_order(result_sizes(old), order) && {
            let victims = budget_victims(result_sizes(old), order, sum_sizes(result_sizes(old)) - max);
            forall|i: int|
                0 <= i < old.len() ==> if victims.contains(i) {
                    is_stub_entry(#[trigger] new[i], old[i].0)
                } else {
                    new[i] == old[i]
                }
        };
    let v = budget_victims(sz, order, excess);
    lemma_victims_shape(sz, order, excess);
    assert forall|i: int| 0 <= i < old.len() implies (v.contains(i) <==> #[trigger] new[i] != old[i]) && (
    #[trigger] sz[i]) == result_size(old[i].1) && (v.contains(i) ==> is_stub_entry(new[i], old[i].0)
        && result_size(new[i].1) == STUB_LEN) by {
        if v.contains(i) {
            lemma_stub_size(new[i], old[i].0);
            assert(sz[i] > STUB_LEN);
        }
    }
    assert forall|i: int, j: int|
        0 <= i < old.len() && 0 <= j < old.len() && #[trigger] new[i] != old[i] && result_size(old[j].1)
            > result_size(old[i].1) implies #[trigger] new[j] != old[j] by {
        assert(listed(order, i) && listed(order, j));
        let m = choose|m: int| 0 <= m < order.len() && order[m] == i;
        let k = choose|k: int| 0 <= k < order.len() && order[k] == j;
        assert(sz[i] == result_size(old[i].1) && sz[j] == result_size(old[j].1));
        if k > m {
            assert(ranks_before(sz, order[m] as int, order[k] as int));
        }
        assert(k != m);
        assert(k < m);
        assert(v.contains(order[m] as int));
    }
    law_budget_covers_excess(sz, order, excess);
    lemma_sum_after(sz, v);
    assert(result_sizes(new) =~= sizes_after(sz, v)) by {
        assert forall|i: int| 0 <= i < old.len() implies #[trigger] result_sizes(new)[i] == sizes_after(sz, v)[i] by {
            assert(sz[i] == result_size(old[i].1));
            if v.contains(i) {
                assert(result_size(new[i].1) == STUB_LEN);
            }
        }
    }
    if reclaimed(sz, v) < excess {
        assert forall|j: int| 0 <= j < old.len() && result_size(old[j].1) > STUB_LEN implies #[trigger] new[j] != old[j] by {
            assert(listed(order, j));
            let k = choose|k: int| 0 <= k < order.len() && order[k] == j;
            assert(sz[j] == result_size(old[j].1));
        }
    }
}

// ---------------------------------------------------------------------------
// Content search over a walk of files
// ---------------------------------------------------------------------------

/// The entries and the file record one file adds to the scan `o`.
pub open spec fn file_added(o: SearchScan, rel: Seq<char>, content: Seq<char>, pat: Seq<char>, ml: bool) -> (
    Seq<Seq<char>>,
    Seq<(Seq<char>, nat)>,
) {
    let lines = lines_of(content);
    let taken = first_hits(hit_lines(lines, pat, ml), o.limit() - o.count());
    let s = skipped_in(o.count(), o.offset(), taken.len());
    (
        if o.mode() == "content"@ {
            entries_for(rel, lines, taken.skip(s as int), o.context())
        } else {
            Seq::empty()
        },
        if taken.len() > 0 {
            seq![(rel, taken.len())]
        } else {
            Seq::empty()
        },
    )
}

/// What the first `k` files of a walk add, file after file.
pub open spec fn walk_added(
    states: Seq<SearchScan>,
    rels: Seq<Seq<char>>,
    contents: Seq<Seq<char>>,
    pat: Seq<char>,
    ml: bool,
    k: int,
) -> (Seq<Seq<char>>, Seq<(Seq<char>, nat)>)
    decreases k,
{
    if k <= 0 {
        (Seq::empty(), Seq::empty())
    } else {
        let before = walk_added(states, rels, contents, pat, ml, k - 1);
        let step = file_added(states[k - 1], rels[k - 1], contents[k - 1], pat, ml);
        (before.0 + step.0, before.1 + step.1)
    }
}

/// Scanning a walk of files file by file: after `k` files, the entries and
/// the files with hits are those from before followed by what each file
/// added, in walk order, and the count of hits never decreases.
pub proof fn law_scan_walk_appends(
    states: Seq<SearchScan>,
    rels: Seq<Seq<char>>,
    contents: Seq<Seq<char>>,
    pat: Seq<char>,
    ml: bool,
)
    requires
        states.len() == rels.len() + 1,
        contents.len() == rels.len(),
        forall|k: int|
            0 <= k < rels.len() ==> scan_step(#[trigger] states[k], states[k + 1], rels[k], contents[k], pat, ml),
    ensures
        forall|k: int|
            0 <= k < states.len() ==> (#[trigger] states[k]).entries() == states[0].entries() + walk_added(
                states,
                rels,
                contents,
                pat,
                ml,
                k,
            ).0 && states[k].files() == states[0].files() + walk_added(states, rels, contents, pat, ml, k).1
                && states[0].count() <= states[k].count(),
{
    assert forall|k: int| 0 <= k < states.len() implies (#[trigger] states[k]).entries() == states[0].entries()
        + walk_added(states, rels, contents, pat, ml, k).0 && states[k].files() == states[0].files() + walk_added(
        states,
        rels,
        contents,
        pat,
        ml,
        k,
    ).1 && states[0].count() <= states[k].count() by {
        lemma_walk_prefix(states, rels, contents, pat, ml, k);
    }
}

proof fn lemma_walk_prefix(
    states: Seq<SearchScan>,
    rels: Seq<Seq<char>>,
    contents: Seq<Seq<char>>,
    pat: Seq<char>,
    ml: bool,
    k: int,
)
    requires
        states.len() == rels.len() + 1,
        contents.len() == rels.len(),
        forall|j: int|
            0 <= j < rels.len() ==> scan_step(#[trigger] states[j], states[j + 1], rels[j], contents[j], pat, ml),
        0 <= k < states.len(),
    ensures
        states[k].entries() == states[0].entries() + walk_added(states, rels, contents, pat, ml, k).0,
        states[k].files() == states[0].files() + walk_added(states, rels, contents, pat, ml, k).1,
        states[0].count() <= states[k].count(),
    decreases k,
{
    if k == 0 {
        assert(states[0].entries() + Seq::<Seq<char>>::empty() =~= states[0].entries());
        assert(states[0].files() + Seq::<(Seq<char>, nat)>::empty() =~= states[0].files());
    } else {
        lemma_walk_prefix(states, rels, contents, pat, ml, k - 1);
        assert(scan_step(states[k - 1], states[k], rels[k - 1], contents[k - 1], pat, ml));
        let before = walk_added(states, rels, contents, pat, ml, k - 1);
        let step = file_added(states[k - 1], rels[k - 1], contents[k - 1], pat, ml);
        assert(states[k].entries() =~= states[0].entries() + (before.0 + step.0));
        assert(states[k].files() =~= states[0].files() + (before.1 + step.1));
    }
}

// ---------------------------------------------------------------------------
// The read cache
// ---------------------------------------------------------------------------

/// A file read in two sessions, then one session's cache cleared: before
/// the clear a repeated read in either session shows the unchanged notice;
/// after it, the cleared session sees the file's numbered lines again while
/// the other still gets the notice. `c1` is the cache after the read in
/// `s`, `c2` after the read in `s2`, `c3` after clearing `s` (as
/// `read_text_file` and `clear_file_cache` state them).
pub proof fn law_cleared_session_reads_afresh(
    c1: FileCache,
    c2: FileCache,
    c3: FileCache,
    s: Seq<char>,
    s2: Seq<char>,
    shown: Seq<char>,
    bytes: Seq<u8>,
    offset: u64,
    limit: Option<u64>,
    max: nat,
)
    requires
        s != s2,
        !binary_bytes(bytes),
        c1.hash_of(s, shown) == Some(content_hash_of(bytes)),
        c2.hash_of(s2, shown) == Some(content_hash_of(bytes)),
        forall|x: Seq<char>, p: Seq<char>| !(x == s2 && p == shown) ==> #[trigger] c2.hash_of(x, p) == c1.hash_of(x, p),
        forall|p: Seq<char>| #[trigger] c3.hash_of(s, p) is None,
        forall|x: Seq<char>, p: Seq<char>| x != s ==> #[trigger] c3.hash_of(x, p) == c2.hash_of(x, p),
    ensures
        text_read_view(c2.hash_of(s, shown), shown, bytes, offset, limit, max) == "[File unchanged since last read: "@
            + shown + "]"@,
        text_read_view(c2.hash_of(s2, shown), shown, bytes, offset, limit, max) == "[File unchanged since last read: "@
            + shown + "]"@,
        text_read_view(c3.hash_of(s, shown), shown, bytes, offset, limit, max) == text_file_view(bytes, offset, limit, max),
        text_read_view(c3.hash_of(s2, shown), shown, bytes, offset, limit, max) == "[File unchanged since last read: "@
            + shown + "]"@,
{
    assert(c2.hash_of(s, shown) == c1.hash_of(s, shown));
    assert(c3.hash_of(s, shown) is None);
    assert(c3.hash_of(s2, shown) == c2.hash_of(s2, shown));
}

// ---------------------------------------------------------------------------
// The result of a content search over a walk
// ---------------------------------------------------------------------------

/// The entries of a list of hit blocks, one block after the other.
pub open spec fn flat_blocks(b: Seq<Seq<Seq<char>>>) -> Seq<Seq<char>>
    decreases b.len(),
{
    if b.len() == 0 {
        Seq::empty()
    } else {
        flat_blocks(b.drop_last()) + b.last()
    }
}

/// The output block of each hit of one file, in line order.
pub open spec fn file_blocks(rel: Seq<char>, content: Seq<char>, pat: Seq<char>, ml: bool, ctx: nat) -> Seq<
    Seq<Seq<char>>,
> {
    let lines = lines_of(content);
    hit_lines(lines, pat, ml).map_values(|i: int| hit_entries(rel, lines, i, ctx))
}

/// The blocks of every hit of the first `k` files of a walk, in walk order.
pub open spec fn walk_blocks(
    rels: Seq<Seq<char>>,
    contents: Seq<Seq<char>>,
    pat: Seq<char>,
    ml: bool,
    ctx: nat,
    k: int,
) -> Seq<Seq<Seq<char>>>
    decreases k,
{
    if k <= 0 {
        Seq::empty()
    } else {
        walk_blocks(rels, contents, pat, ml, ctx, k - 1) + file_blocks(rels[k - 1], contents[k - 1], pat, ml, ctx)
    }
}

pub open spec fn min_nat(a: nat, b: nat) -> nat {
    if a <= b {
        a
    } else {
        b
    }
}

proof fn lemma_flat_add(a: Seq<Seq<Seq<char>>>, b: Seq<Seq<Seq<char>>>)
    ensures
        flat_blocks(a + b) == flat_blocks(a) + flat_blocks(b),
    decreases b.len(),
{
    if b.len() == 0 {
        assert(a + b =~= a);
        assert(flat_blocks(a) + flat_blocks(b) =~= flat_blocks(a));
    } else {
        lemma_flat_add(a, b.drop_last());
        assert((a + b).drop_last() =~= a + b.drop_last());
        assert((a + b).last() == b.last());
        assert(flat_blocks(a) + flat_blocks(b) =~= flat_blocks(a) + flat_blocks(b.drop_last()) + b.last());
    }
}

proof fn lemma_entries_flat(rel: Seq<char>, lines: Seq<Seq<char>>, hs: Seq<int>, ctx: nat)
    ensures
        entries_for(rel, lines, hs, ctx) == flat_blocks(hs.map_values(|i: int| hit_entries(rel, lines, i, ctx))),
    decreases hs.len(),
{
    let m = hs.map_values(|i: int| hit_entries(rel, lines, i, ctx));
    if hs.len() > 0 {
        lemma_entries_flat(rel, lines, hs.drop_last(), ctx);
        assert(m.drop_last() =~= hs.drop_last().map_values(|i: int| hit_entries(rel, lines, i, ctx)));
    }
}

/// One scan step keeps the walk invariant: hits counted up to the limit,
/// the ones at or before the offset skipped, the blocks in between shown.
proof fn lemma_scan_step_blocks(
    o: SearchScan,
    n: SearchScan,
    w: Seq<Seq<Seq<char>>>,
    rel: Seq<char>,
    content: Seq<char>,
    pat: Seq<char>,
    ml: bool,
)
    requires
        scan_step(o, n, rel, content, pat, ml),
        o.offset() <= o.limit(),
        o.count() == min_nat(w.len(), o.limit()),
        o.skipped() == min_nat(o.count(), o.offset()),
        o.mode() == "content"@ ==> o.entries() == flat_blocks(w.subrange(o.skipped() as int, o.count() as int)),
    ensures
        ({
            let w2 = w + file_blocks(rel, content, pat, ml, o.context());
            &&& n.count() == min_nat(w2.len(), n.limit())
            &&& n.skipped() == min_nat(n.count(), n.offset())
            &&& n.mode() == "content"@ ==> n.entries() == flat_blocks(w2.subrange(n.skipped() as int, n.count() as int))
        }),
{
    let lines = lines_of(content);
    let h = hit_lines(lines, pat, ml);
    let room = o.limit() - o.count();
    let taken = first_hits(h, room);
    let t: int = if h.len() <= room { h.len() as int } else { room };
    assert(taken =~= h.take(t));
    let sk = skipped_in(o.count(), o.offset(), taken.len());
    let f = file_blocks(rel, content, pat, ml, o.context());
    let w2 = w + f;
    assert(f.len() == h.len());
    if o.mode() == "content"@ {
        let added = entries_for(rel, lines, taken.skip(sk as int), o.context());
        lemma_entries_flat(rel, lines, taken.skip(sk as int), o.context());
        assert(taken.skip(sk as int).map_values(|i: int| hit_entries(rel, lines, i, o.context())) =~= f.subrange(
            sk as int,
            t,
        ));
        let a = o.skipped() as int;
        let c = o.count() as int;
        if c < w.len() {
            assert(t == 0);
            assert(w2.subrange(a, c) =~= w.subrange(a, c));
            assert(f.subrange(0, 0) =~= Seq::<Seq<Seq<char>>>::empty());
            assert(n.entries() =~= o.entries());
        } else if sk > 0 {
            assert(a == c);
            assert(w.subrange(a, c) =~= Seq::<Seq<Seq<char>>>::empty());
            assert(w2.subrange(a + sk, c + t) =~= f.subrange(sk as int, t));
            assert(n.entries() =~= added);
        } else {
            assert(w2.subrange(a, c + t) =~= w.subrange(a, c) + f.subrange(0, t));
            lemma_flat_add(w.subrange(a, c), f.subrange(0, t));
        }
    }
}

proof fn lemma_walk_blocks(
    states: Seq<SearchScan>,
    rels: Seq<Seq<char>>,
    contents: Seq<Seq<char>>,
    pat: Seq<char>,
    ml: bool,
    k: int,
)
    requires
        states.len() == rels.len() + 1,
        contents.len() == rels.len(),
        forall|j: int|
            0 <= j < rels.len() ==> scan_step(#[trigger] states[j], states[j + 1], rels[j], contents[j], pat, ml),
        states[0].offset() <= states[0].limit(),
        states[0].count() == 0,
        states[0].skipped() == 0,
        states[0].entries().len() == 0,
        0 <= k < states.len(),
    ensures
        ({
            let w = walk_blocks(rels, contents, pat, ml, states[0].context(), k);
            let s = states[k];
            &&& s.limit() == states[0].limit()
            &&& s.offset() == states[0].offset()
            &&& s.context() == states[0].context()
            &&& s.mode() == states[0].mode()
            &&& s.count() == min_nat(w.len(), s.limit())
            &&& s.skipped() == min_nat(s.count(), s.offset())
            &&& s.mode() == "content"@ ==> s.entries() == flat_blocks(w.subrange(s.skipped() as int, s.count() as int))
        }),
    decreases k,
{
    if k == 0 {
        let w = walk_blocks(rels, contents, pat, ml, states[0].context(), 0);
        assert(w.subrange(0, 0) =~= Seq::<Seq<Seq<char>>>::empty());
        assert(states[0].entries() =~= Seq::<Seq<char>>::empty());
    } else {
        lemma_walk_blocks(states, rels, contents, pat, ml, k - 1);
        assert(scan_step(states[k - 1], states[k], rels[k - 1], contents[k - 1], pat, ml));
        lemma_scan_step_blocks(
            states[k - 1],
            states[k],
            walk_blocks(rels, contents, pat, ml, states[0].context(), k - 1),
            rels[k - 1],
            contents[k - 1],
            pat,
            ml,
        );
    }
}

/// A content search over a walk of files, from a fresh scan: of all the
/// hits of all the files in walk order, those up to the limit are counted,
/// those at or before the offset skipped, and the output entries are the
/// blocks of the hits in between, in order (with no context, one
/// `path:line:text` entry per hit). The report is the no-match message when
/// no hit lies past the offset, else `Found k match(es):` and those entries
/// one per line.
pub proof fn law_search_walk_result(
    states: Seq<SearchScan>,
    rels: Seq<Seq<char>>,
    contents: Seq<Seq<char>>,
    pat: Seq<char>,
    ml: bool,
    pattern: Seq<char>,
    shown_dir: Seq<char>,
)
    requires
        states.len() == rels.len() + 1,
        contents.len() == rels.len(),
        forall|j: int|
            0 <= j < rels.len() ==> scan_step(#[trigger] states[j], states[j + 1], rels[j], contents[j], pat, ml),
        states[0].offset() <= states[0].limit(),
        states[0].count() == 0,
        states[0].skipped() == 0,
        states[0].entries().len() == 0,
    ensures
        ({
            let s0 = states[0];
            let last = states[rels.len() as int];
            let w = walk_blocks(rels, contents, pat, ml, s0.context(), rels.len() as int);
            let counted = min_nat(w.len(), s0.limit());
            &&& last.count() == counted
            &&& last.skipped() == min_nat(counted, s0.offset())
            &&& s0.mode() == "content"@ ==> last.entries() == flat_blocks(
                w.subrange(min_nat(counted, s0.offset()) as int, counted as int),
            )
            &&& s0.mode() == "content"@ ==> report_text(
                last.mode(),
                (last.count() - last.skipped()) as nat,
                last.entries(),
                last.files(),
                pattern,
                shown_dir,
            ) == if counted <= s0.offset() {
                "No matches found for pattern '"@ + pattern + "' in '"@ + shown_dir + "'"@
            } else {
                "Found "@ + decimal((counted - s0.offset()) as nat) + " match(es):\n"@ + joined_lines(
                    flat_blocks(w.subrange(s0.offset() as int, counted as int)),
                )
            }
        }),
{
    let k = rels.len() as int;
    lemma_walk_blocks(states, rels, contents, pat, ml, k);
    reveal_strlit("content");
    reveal_strlit("files");
    reveal_strlit("count");
    assert("content"@.len() != "files"@.len());
    assert("content"@ != "count"@) by {
        assert("content"@[2] != "count"@[2]);
    }
}

// ---------------------------------------------------------------------------
// Destructive removals
// ---------------------------------------------------------------------------

/// `rm -rf` aimed at `/` or at a directory right under it (other than ones
/// starting with `.`, `h`, `t` or `v`) is Critical. Unless a fork bomb or a
/// format command is also present, the verdict is the destructive-rm one
/// quoting the command. So `rm -rf /*` and `rm -rf /etc` are never safe.
pub proof fn law_rm_rf_root_is_critical(cmd: Seq<char>)
    requires
        contains_seq(trim(lowercase(cmd)), "rm "@),
        contains_seq(trim(lowercase(cmd)), "-rf"@),
        contains_seq(trim(lowercase(cmd)), " /"@),
        !contains_seq(trim(lowercase(cmd)), " /."@),
        !contains_seq(trim(lowercase(cmd)), " /h"@),
        !contains_seq(trim(lowercase(cmd)), " /t"@),
        !contains_seq(trim(lowercase(cmd)), " /v"@),
        contains_seq(trim(lowercase(cmd)), "rm -rf /"@),
    ensures
        danger_of(cmd) matches Some(Danger::Critical(_)),
        !contains_seq(trim(lowercase(cmd)), ":(){ :|:&"@) && !contains_seq(trim(lowercase(cmd)), "mkfs"@)
            && !contains_seq(trim(lowercase(cmd)), "format c:"@) ==> danger_of(cmd) == Some(
            Danger::Critical("destructive rm detected: '"@ + cmd + "'"@),
        ),
{
    let t = trim(lowercase(cmd));
    if !contains_seq(t, ":(){ :|:&"@) && !contains_seq(t, "mkfs"@) && !contains_seq(t, "format c:"@) {
        assert forall|i: int| 0 <= i < critical_patterns().len() implies !contains_seq(t, #[trigger] critical_patterns()[i]) by {
            assert(critical_patterns()[0] == ":(){ :|:&"@);
            assert(critical_patterns()[1] == "mkfs"@);
            assert(critical_patterns()[2] == "format c:"@);
        }
        assert(first_hit(t, critical_patterns()) is None);
        reveal_strlit("destructive rm detected: '");
        reveal_strlit("destructive rm detected");
        reveal_strlit(": '");
        assert("destructive rm detected"@ + (": '"@ + cmd + "'"@) =~= "destructive rm detected: '"@ + cmd + "'"@);
    }
    assert(rm_root_target(t));
}

// ---------------------------------------------------------------------------
// Plan mode of the configuration
// ---------------------------------------------------------------------------

/// In a configuration's Plan mode, a read-only tool that no deny or allow
/// rule names is allowed without asking, approved automatically, whatever
/// the plan-mode flag and the tool's own level.
pub proof fn law_config_plan_mode_allows_reads(
    tool: PermissionSubject,
    args: JsonDoc,
    plan_mode: bool,
    cfg: PermissionConfig,
)
    requires
        cfg.mode == PermissionMode::Plan,
        tool.read_only,
        forall|i: int| 0 <= i < cfg.always_deny@.len() ==> !rule_matches(tool.name@, args.value, #[trigger] cfg.always_deny@[i]),
        forall|i: int| 0 <= i < cfg.always_allow@.len() ==> !rule_matches(tool.name@, args.value, #[trigger] cfg.always_allow@[i]),
    ensures
        permission_verdict(tool, args, plan_mode, Some(cfg)) == Verdict::Allow(DecisionReason::AutoApproved),
{
    assert(first_matching_rule(cfg.always_deny@, tool.name@, args.value) is None);
    assert(first_matching_rule(cfg.always_allow@, tool.name@, args.value) is None);
}

/// A read-only tool is never refused as a write tool: whatever the flag,
/// the configuration and the rules, its verdict is not the plan-mode
/// denial.
pub proof fn law_read_only_never_denied_as_write(
    tool: PermissionSubject,
    args: JsonDoc,
    plan_mode: bool,
    config: Option<PermissionConfig>,
)
    requires
        tool.read_only,
    ensures
        permission_verdict(tool, args, plan_mode, config) != Verdict::Deny(plan_deny_message(tool.name@)),
{
    reveal_strlit("plan mode: write tool '");
    reveal_strlit("denied by rule: tool '");
    reveal_strlit("dont-ask mode: tool '");
    let v = permission_verdict(tool, args, plan_mode, config);
    let pm = plan_deny_message(tool.name@);
    assert(pm[0] == 'p');
    if let Verdict::Deny(m) = v {
        assert(m[0] == 'd');
        assert(m != pm);
    }
}

// ---------------------------------------------------------------------------
// Deferred search by description
// ---------------------------------------------------------------------------

proof fn lemma_points_at_least(t: DeferredTool, kws: Seq<Seq<char>>)
    requires
        forall|k: int| 0 <= k < kws.len() ==> contains_seq(lowercase(t.description@), #[trigger] kws[k]),
    ensures
        points_sum(t, kws) >= kws.len(),
        forall|k: int| 0 <= k < kws.len() ==> keyword_points(t, #[trigger] kws[k]) >= 1,
    decreases kws.len(),
{
    if kws.len() > 0 {
        assert forall|k: int| 0 <= k < kws.len() - 1 implies contains_seq(lowercase(t.description@), #[trigger] kws.drop_last()[k]) by {
            assert(kws.drop_last()[k] == kws[k]);
        }
        lemma_points_at_least(t, kws.drop_last());
        assert(contains_seq(lowercase(t.description@), kws[kws.len() - 1]));
        assert forall|k: int| 0 <= k < kws.len() implies keyword_points(t, #[trigger] kws[k]) >= 1 by {
            assert(contains_seq(lowercase(t.description@), kws[k]));
        }
    }
}

/// A tool whose description contains every keyword (ignoring case) scores
/// at least one point per keyword, so a non-empty query finds it: it is in
/// every ranking that a search can return.
pub proof fn law_description_match_is_found(tools: Seq<DeferredTool>, kws: Seq<Seq<char>>, i: int, order: Seq<usize>)
    requires
        0 <= i < tools.len(),
        forall|k: int| 0 <= k < kws.len() ==> contains_seq(lowercase(tools[i].description@), #[trigger] kws[k]),
        is_ranking(scores_of(tools, kws), order),
    ensures
        score(tools[i], kws) >= kws.len(),
        kws.len() > 0 ==> exists|k: int| 0 <= k < order.len() && order[k] == i,
{
    lemma_points_at_least(tools[i], kws);
    assert(scores_of(tools, kws)[i] == score(tools[i], kws));
}

// ---------------------------------------------------------------------------
// Removing a task
// ---------------------------------------------------------------------------

/// Removing an id keeps exactly the tasks with another id, in their order:
/// the list filtered by `id != removed`. A task is left iff it was there
/// and has another id.
pub proof fn law_remove_keeps_other_tasks(items: Seq<(u64, Seq<char>, Seq<char>, Seq<char>)>, id: u64)
    ensures
        without_id(items, id) == items.filter(|x: (u64, Seq<char>, Seq<char>, Seq<char>)| x.0 != id),
        forall|x: (u64, Seq<char>, Seq<char>, Seq<char>)|
            #[trigger] without_id(items, id).contains(x) <==> (items.contains(x) && x.0 != id),
    decreases items.len(),
{
    let f = |x: (u64, Seq<char>, Seq<char>, Seq<char>)| x.0 != id;
    if items.len() > 0 {
        law_remove_keeps_other_tasks(items.drop_last(), id);
        assert(items.filter(f) == {
            let rest = items.drop_last().filter(f);
            if f(items.last()) { rest.push(items.last()) } else { rest }
        }) by {
            reveal(Seq::filter);
        }
        let w = without_id(items, id);
        let wr = without_id(items.drop_last(), id);
        assert forall|x: (u64, Seq<char>, Seq<char>, Seq<char>)| #[trigger] w.contains(x) <==> (items.contains(x) && x.0 != id) by {
            if items.contains(x) && x.0 != id {
                let j = choose|j: int| 0 <= j < items.len() && items[j] == x;
                if j < items.len() - 1 {
                    assert(items.drop_last()[j] == x);
                    assert(items.drop_last().contains(x));
                    assert(wr.contains(x));
                    if items.last().0 != id {
                        let m = choose|m: int| 0 <= m < wr.len() && wr[m] == x;
                        assert(w[m] == x);
                    }
                } else {
                    assert(w[w.len() - 1] == x);
                }
            }
            if w.contains(x) {
                let m = choose|m: int| 0 <= m < w.len() && w[m] == x;
                if items.last().0 != id && m == w.len() - 1 {
                    assert(items[items.len() - 1] == x);
                } else {
                    assert(wr[m] == x);
                    assert(wr.contains(x));
                    let j = choose|j: int| 0 <= j < items.drop_last().len() && items.drop_last()[j] == x;
                    assert(items[j] == x);
                }
            }
        }
    } else {
        assert(items.filter(f) =~= Seq::empty()) by {
            reveal(Seq::filter);
        }
    }
}

// ---------------------------------------------------------------------------
// File-type filter of a search
// ---------------------------------------------------------------------------

/// A set file type is always applied: a file whose extension differs from
/// it (ignoring ASCII case) is not searched, with or without a name glob;
/// without a glob, the file type alone decides.
pub proof fn law_file_type_always_applies(glob: Option<Seq<char>>, t: Seq<char>, name: Seq<char>, ext: Seq<char>)
    ensures
        !eq_ascii_nocase(ext, t) ==> !filter_admits(glob, Some(t), name, ext),
        ext.len() != t.len() ==> !filter_admits(glob, Some(t), name, ext),
        filter_admits(None, Some(t), name, ext) == eq_ascii_nocase(ext, t),
        filter_admits(None, None, name, ext),
        filter_admits(glob, Some(t), name, ext) ==> (glob matches Some(g) ==> glob_name_matches(g, name)),
        glob matches Some(g) ==> (filter_admits(glob, None, name, ext) == glob_name_matches(g, name)),
{
}

// ---------------------------------------------------------------------------
// What a safe command is
// ---------------------------------------------------------------------------

/// A command reported safe holds none of the patterns: no critical or
/// warning pattern, no `dd if=`, no raw `dd` with an input, and no
/// `rm -rf` of the home directory, of `/`, or of a top-level directory
/// outside the exempt ones.
pub proof fn law_safe_command_has_no_pattern(cmd: Seq<char>)
    requires
        danger_of(cmd) is None,
    ensures
        ({
            let t = trim(lowercase(cmd));
            &&& !contains_seq(t, ":(){ :|:&"@) && !contains_seq(t, "mkfs"@) && !contains_seq(t, "format c:"@)
            &&& forall|i: int| 0 <= i < warning_patterns().len() ==> !contains_seq(t, #[trigger] warning_patterns()[i])
            &&& !contains_seq(t, "dd if="@)
            &&& !(starts_with_seq(t, "dd "@) && contains_seq(t, "if="@))
            &&& contains_seq(t, "rm "@) && contains_seq(t, "-rf"@) ==> !contains_seq(t, " ~"@) && !ends_with_seq(t, " /"@)
                && !(contains_seq(t, " /"@) && !contains_seq(t, " /."@) && !contains_seq(t, " /h"@) && !contains_seq(t, " /t"@)
                && !contains_seq(t, " /v"@) && contains_seq(t, "rm -rf /"@))
        }),
{
    let t = trim(lowercase(cmd));
    assert(first_hit(t, critical_patterns()) is None);
    if contains_seq(t, ":(){ :|:&"@) {
        assert(contains_seq(t, critical_patterns()[0]));
    }
    if contains_seq(t, "mkfs"@) {
        assert(contains_seq(t, critical_patterns()[1]));
    }
    if contains_seq(t, "format c:"@) {
        assert(contains_seq(t, critical_patterns()[2]));
    }
    assert(first_hit(t, warning_patterns()) is None);
}

// ---------------------------------------------------------------------------
// Modes that never ask
// ---------------------------------------------------------------------------

/// Don't-ask mode never puts a call to the user: every verdict is an
/// allow or a denial.
pub proof fn law_dont_ask_never_asks(tool: PermissionSubject, args: JsonDoc, plan_mode: bool, cfg: PermissionConfig)
    requires
        cfg.mode == PermissionMode::DontAsk,
    ensures
        !(permission_verdict(tool, args, plan_mode, Some(cfg)) is Ask),
{
}

/// Accept-edits mode lets the file-writing tools through without asking
/// when no rule names the call (outside the plan-mode flag's block).
pub proof fn law_accept_edits_allows_writes(tool: PermissionSubject, args: JsonDoc, plan_mode: bool, cfg: PermissionConfig)
    requires
        cfg.mode == PermissionMode::AcceptEdits,
        tool.name@ == "write_file"@ || tool.name@ == "edit_file"@,
        !(plan_mode && !tool.read_only),
        forall|i: int| 0 <= i < cfg.always_deny@.len() ==> !rule_matches(tool.name@, args.value, #[trigger] cfg.always_deny@[i]),
        forall|i: int| 0 <= i < cfg.always_allow@.len() ==> !rule_matches(tool.name@, args.value, #[trigger] cfg.always_allow@[i]),
    ensures
        permission_verdict(tool, args, plan_mode, Some(cfg)) == Verdict::Allow(DecisionReason::ModeBypass),
{
    assert(first_matching_rule(cfg.always_deny@, tool.name@, args.value) is None);
    assert(first_matching_rule(cfg.always_allow@, tool.name@, args.value) is None);
}

// ---------------------------------------------------------------------------
// Deferred search: any field counts
// ---------------------------------------------------------------------------

/// Each keyword found in the name (3 points), in a hint (2) or in the
/// description (1), ignoring case, adds those points; a tool in which every
/// keyword is found somewhere is found by a non-empty query.
pub proof fn law_any_field_match_is_found(tools: Seq<DeferredTool>, kws: Seq<Seq<char>>, i: int, order: Seq<usize>)
    requires
        0 <= i < tools.len(),
        forall|k: int|
            0 <= k < kws.len() ==> contains_seq(lowercase(tools[i].name@), #[trigger] kws[k]) || contains_seq(
                lowercase(tools[i].description@),
                kws[k],
            ) || exists|j: int|
                0 <= j < tools[i].search_hints@.len() && contains_seq(lowercase(#[trigger] tools[i].search_hints@[j]@), kws[k]),
        is_ranking(scores_of(tools, kws), order),
    ensures
        forall|k: int| 0 <= k < kws.len() ==> keyword_points(tools[i], #[trigger] kws[k]) >= 1,
        forall|kw: Seq<char>|
            #![trigger keyword_points(tools[i], kw)]
            keyword_points(tools[i], kw) >= (if contains_seq(lowercase(tools[i].name@), kw) { 3int } else { 0int }) + (
            if contains_seq(lowercase(tools[i].description@), kw) { 1int } else { 0int }),
        score(tools[i], kws) >= kws.len(),
        kws.len() > 0 ==> exists|k: int| 0 <= k < order.len() && order[k] == i,
{
    let t = tools[i];
    assert forall|k: int| 0 <= k < kws.len() implies keyword_points(t, #[trigger] kws[k]) >= 1 by {
        if !contains_seq(lowercase(t.name@), kws[k]) && !contains_seq(lowercase(t.description@), kws[k]) {
            let j = choose|j: int|
                0 <= j < t.search_hints@.len() && contains_seq(lowercase(#[trigger] t.search_hints@[j]@), kws[k]);
            assert(crate::deferred::hint_hit(t, kws[k]));
        }
    }
    lemma_points_from_each(t, kws);
    assert(scores_of(tools, kws)[i] == score(t, kws));
}

proof fn lemma_points_from_each(t: DeferredTool, kws: Seq<Seq<char>>)
    requires
        forall|k: int| 0 <= k < kws.len() ==> keyword_points(t, #[trigger] kws[k]) >= 1,
    ensures
        points_sum(t, kws) >= kws.len(),
    decreases kws.len(),
{
    if kws.len() > 0 {
        assert forall|k: int| 0 <= k < kws.len() - 1 implies keyword_points(t, #[trigger] kws.drop_last()[k]) >= 1 by {
            assert(kws.drop_last()[k] == kws[k]);
        }
        lemma_points_from_each(t, kws.drop_last());
        assert(keyword_points(t, kws[kws.len() - 1]) >= 1);
    }
}

/// An update finds the first task with the id: it has that id and no
/// earlier task has it; when none is found, no task has the id.
pub proof fn law_update_finds_first_task(items: Seq<(u64, Seq<char>, Seq<char>, Seq<char>)>, id: u64)
    ensures
        match first_with_id(items, id) {
            Some(i) => 0 <= i < items.len() && items[i].0 == id && forall|j: int| 0 <= j < i ==> items[j].0 != id,
            None => forall|j: int| 0 <= j < items.len() ==> items[j].0 != id,
        },
    decreases items.len(),
{
    if items.len() > 0 {
        law_update_finds_first_task(items.drop_last(), id);
        assert forall|j: int| 0 <= j < items.len() - 1 implies items.drop_last()[j] == items[j] by {}
    }
}

} // verus!
