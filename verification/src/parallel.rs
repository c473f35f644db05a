//! Whether a batch of tool calls may run concurrently.
use vstd::prelude::*;

use crate::json::{str_field, JsonValue};
use crate::text::{chars_start_with, starts_with_seq, str_eq, to_chars};

verus! {

/// Backslashes turned into forward slashes.
pub open spec fn slash_norm(s: Seq<char>) -> Seq<char> {
    Seq::new(s.len(), |i: int| if s[i] == '\\' { '/' } else { s[i] })
}

/// Two calls conflict when either lacks a string `path` argument, when the
/// paths are equal, or when one (with `\` read as `/`) is a prefix of the
/// other.
pub open spec fn conflict(a: JsonValue, b: JsonValue) -> bool {
    match (str_field(a, "path"@), str_field(b, "path"@)) {
        (Some(x), Some(y)) => x == y || starts_with_seq(slash_norm(x), slash_norm(y))
            || starts_with_seq(slash_norm(y), slash_norm(x)),
        _ => true,
    }
}

fn normalized(s: &str) -> (r: Vec<char>)
    ensures
        r@ == slash_norm(s@),
{
    let v = to_chars(s);
    let mut r: Vec<char> = Vec::new();
    let mut i: usize = 0;
    while i < v.len()
        invariant
            i <= v@.len(),
            v@ == s@,
            r@ =~= Seq::new(i as nat, |k: int| if s@[k] == '\\' { '/' } else { s@[k] }),
        decreases v@.len() - i,
    {
        if v[i] == '\\' {
            r.push('/');
        } else {
            r.push(v[i]);
        }
        i = i + 1;
    }
    r
}

/// Check if two file-path-scoped calls conflict (have overlapping paths).
pub fn paths_conflict(a: &JsonValue, b: &JsonValue) -> (r: bool)
    ensures
        r == conflict(*a, *b),
{
    let pa = a.str_field("path");
    let pb = b.str_field("path");
    match (pa, pb) {
        (Some(x), Some(y)) => {
            if str_eq(x, y) {
                return true;
            }
            let xn = normalized(x);
            let yn = normalized(y);
            chars_start_with(xn.as_slice(), yn.as_slice()) || chars_start_with(yn.as_slice(), xn.as_slice())
        },
        _ => true,
    }
}

/// What the parallelism decision needs to know of one call: whether its
/// tool is registered, and if so whether it is safe to run concurrently
/// with these arguments and whether it is read-only.
pub struct CallTraits {
    pub registered: bool,
    pub concurrency_safe: bool,
    pub read_only: bool,
    pub args: JsonValue,
}

/// A call that may write: its tool is unknown or not read-only.
pub open spec fn may_write(c: CallTraits) -> bool {
    !c.registered || !c.read_only
}

/// A batch runs concurrently when it has at most one call, or when every
/// tool is registered and concurrency-safe and no two writing calls have
/// conflicting paths.
pub open spec fn parallel_ok(calls: Seq<CallTraits>) -> bool {
    calls.len() <= 1 || ((forall|i: int|
        0 <= i < calls.len() ==> (#[trigger] calls[i]).registered && calls[i].concurrency_safe)
        && forall|i: int, j: int|
        0 <= i < j < calls.len() && may_write(#[trigger] calls[i]) && may_write(#[trigger] calls[j])
            ==> !conflict(calls[i].args, calls[j].args))
}

/// Decide if a batch of tool calls can safely run in parallel.
pub fn should_parallelize(calls: &[CallTraits]) -> (r: bool)
    ensures
        r == parallel_ok(calls@),
{
    if calls.len() <= 1 {
        return true;
    }
    let mut i: usize = 0;
    while i < calls.len()
        invariant
            i <= calls@.len(),
            calls@.len() > 1,
            forall|k: int| 0 <= k < i ==> (#[trigger] calls@[k]).registered && calls@[k].concurrency_safe,
        decreases calls@.len() - i,
    {
        if !(calls[i].registered && calls[i].concurrency_safe) {
            assert(!((calls@[i as int]).registered && calls@[i as int].concurrency_safe));
            return false;
        }
        i = i + 1;
    }
    let mut i: usize = 0;
    while i < calls.len()
        invariant
            i <= calls@.len(),
            calls@.len() > 1,
            forall|k: int| 0 <= k < calls@.len() ==> (#[trigger] calls@[k]).registered && calls@[k].concurrency_safe,
            forall|p: int, q: int|
                0 <= p < i && p < q < calls@.len() && may_write(#[trigger] calls@[p]) && may_write(#[trigger] calls@[q])
                    ==> !conflict(calls@[p].args, calls@[q].args),
        decreases calls@.len() - i,
    {
        if !calls[i].registered || !calls[i].read_only {
            let mut j: usize = i + 1;
            while j < calls.len()
                invariant
                    i < calls@.len(),
                    i + 1 <= j <= calls@.len(),
                    may_write(calls@[i as int]),
                    forall|q: int| i < q < j && may_write(#[trigger] calls@[q]) ==> !conflict(calls@[i as int].args, calls@[q].args),
                decreases calls@.len() - j,
            {
                if (!calls[j].registered || !calls[j].read_only) && paths_conflict(&calls[i].args, &calls[j].args) {
                    assert(may_write(calls@[i as int]) && may_write(calls@[j as int]));
                    return false;
                }
                j = j + 1;
            }
        }
        i = i + 1;
    }
    true
}

} // verus!
