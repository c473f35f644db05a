//! Finding files by glob: arguments, the newest-first selection and the
//! report.
use vstd::prelude::*;

use crate::error::ToolError;
use crate::json::{str_field, u64_field, JsonValue};
use crate::paths::{relative_display, relative_to};
use crate::ranking::{desc_order, is_desc_order};
use crate::text::{decimal, owned, push_decimal_wide, push_str};

verus! {

/// The arguments of a glob search.
pub struct GlobArgs {
    pub pattern: String,
    pub path: String,
    pub max_results: u64,
}

/// Reads the arguments: `pattern` is required, `path` defaults to `.` and
/// `max_results` to 100.
pub fn parse_glob_args(args: &JsonValue) -> (r: Result<GlobArgs, ToolError>)
    ensures
        r is Err <==> str_field(*args, "pattern"@) is None,
        r matches Err(e) ==> e matches ToolError::Execution(m) && m@ == "missing required parameter 'pattern'"@,
        r matches Ok(a) ==> str_field(*args, "pattern"@) == Some(a.pattern@) && a.path@ == match str_field(
            *args,
            "path"@,
        ) {
            Some(p) => p,
            None => "."@,
        } && a.max_results == match u64_field(*args, "max_results"@) {
            Some(n) => n,
            None => 100,
        },
{
    let pattern = match args.str_field("pattern") {
        Some(p) => owned(p),
        None => {
            return Err(ToolError::Execution(owned("missing required parameter 'pattern'")));
        },
    };
    let path = match args.str_field("path") {
        Some(p) => owned(p),
        None => owned("."),
    };
    let max_results = match args.u64_field("max_results") {
        Some(n) => n,
        None => 100,
    };
    Ok(GlobArgs { pattern, path, max_results })
}

/// A modification time (nanoseconds from the Unix epoch, negative before
/// it) as an unsigned key of the same order.
pub open spec fn time_key(t: i128) -> nat {
    (t + 0x8000_0000_0000_0000_0000_0000_0000_0000int) as nat
}

fn time_key_exec(t: i128) -> (r: u128)
    ensures
        r == time_key(t),
{
    if t >= 0 {
        (t as u128) + 0x8000_0000_0000_0000_0000_0000_0000_0000u128
    } else {
        ((t + 0x7fff_ffff_ffff_ffff_ffff_ffff_ffff_ffffi128) + 1) as u128
    }
}

pub open spec fn time_keys(entries: Seq<(String, i128)>) -> Seq<nat> {
    entries.map_values(|e: (String, i128)| time_key(e.1))
}

/// The paths of the matches, newest first (equal times keep their order),
/// at most `max_results` of them.
pub fn newest_first(entries: &Vec<(String, i128)>, max_results: u64) -> (r: Vec<String>)
    ensures
        exists|order: Seq<usize>|
            #![trigger is_desc_order(time_keys(entries@), order)]
            is_desc_order(time_keys(entries@), order) && r@.len() == (if max_results < order.len() {
                max_results as int
            } else {
                order.len() as int
            }) && forall|k: int| 0 <= k < r@.len() ==> r@[k]@ == entries@[#[trigger] order[k] as int].0@,
{
    let mut keys: Vec<u128> = Vec::new();
    let mut i: usize = 0;
    while i < entries.len()
        invariant
            i <= entries@.len(),
            keys@.len() == i,
            forall|k: int| 0 <= k < i ==> keys@[k] as nat == time_key(entries@[k].1),
        decreases entries@.len() - i,
    {
        keys.push(time_key_exec(entries[i].1));
        i = i + 1;
    }
    let order = desc_order(&keys);
    assert(keys@.map_values(|n: u128| n as nat) =~= time_keys(entries@));
    let mut out: Vec<String> = Vec::new();
    let mut k: usize = 0;
    while k < order.len() && (k as u128) < (max_results as u128)
        invariant
            k <= order@.len(),
            k <= max_results,
            is_desc_order(time_keys(entries@), order@),
            out@.len() == k,
            forall|m: int| 0 <= m < k ==> out@[m]@ == entries@[#[trigger] order@[m] as int].0@,
        decreases order@.len() - k,
    {
        out.push(owned(entries[order[k]].0.as_str()));
        k = k + 1;
    }
    out
}

/// `path\n` for each match, relative to the base.
pub open spec fn match_lines(paths: Seq<String>, base: Seq<char>) -> Seq<char>
    decreases paths.len(),
{
    if paths.len() == 0 {
        Seq::empty()
    } else {
        match_lines(paths.drop_last(), base) + relative_to(paths.last()@, base) + "\n"@
    }
}

/// The report of a glob search.
pub open spec fn glob_report_text(paths: Seq<String>, base: Seq<char>, pattern: Seq<char>) -> Seq<char> {
    if paths.len() == 0 {
        "No files matching pattern '"@ + pattern + "' in '"@ + base + "'"@
    } else {
        "Found "@ + decimal(paths.len()) + " file(s):\n"@ + match_lines(paths, base)
    }
}

/// Reports the selected matches, shown relative to the base directory.
pub fn glob_report(paths: &Vec<String>, base: &str, pattern: &str) -> (r: String)
    ensures
        r@ == glob_report_text(paths@, base@, pattern@),
{
    let mut out = String::new();
    if paths.len() == 0 {
        push_str(&mut out, "No files matching pattern '");
        push_str(&mut out, pattern);
        push_str(&mut out, "' in '");
        push_str(&mut out, base);
        push_str(&mut out, "'");
        return out;
    }
    push_str(&mut out, "Found ");
    push_decimal_wide(&mut out, paths.len() as u128);
    push_str(&mut out, " file(s):\n");
    let ghost head = out@;
    let mut i: usize = 0;
    while i < paths.len()
        invariant
            i <= paths@.len(),
            out@ == head + match_lines(paths@.take(i as int), base@),
        decreases paths@.len() - i,
    {
        let rel = relative_display(paths[i].as_str(), base);
        push_str(&mut out, rel.as_str());
        push_str(&mut out, "\n");
        proof {
            assert(paths@.take(i + 1).drop_last() =~= paths@.take(i as int));
        }
        assert(out@ =~= head + match_lines(paths@.take(i + 1), base@));
        i = i + 1;
    }
    assert(paths@.take(i as int) =~= paths@);
    out
}

} // verus!
