//! Writing and editing files: arguments, string replacement with its match
//! count, and the reports.
use vstd::prelude::*;

use crate::error::ToolError;
use crate::json::{bool_field, lemma_array_view, lemma_object_view, str_field, u64_field, Json, JsonValue};
use crate::schema::{key_index, members_view, put, put_member};
use crate::text::{
    chars_find_from, decimal, lines_of, split_lines, views, occurs_at, owned, push_char, push_decimal_wide, push_str, str_byte_len,
    string_from_chars, string_from_range, to_chars, utf8_len,
};

verus! {

fn required_str<'a>(args: &'a JsonValue, key: &str, message: &str) -> (r: Result<&'a str, ToolError>)
    ensures
        match str_field(*args, key@) {
            Some(s) => r matches Ok(x) && x@ == s,
            None => r matches Err(ToolError::Execution(m)) && m@ == message@,
        },
{
    match args.str_field(key) {
        Some(s) => Ok(s),
        None => Err(ToolError::Execution(owned(message))),
    }
}

// ---------------------------------------------------------------------------
// write_file
// ---------------------------------------------------------------------------

/// The arguments of `write_file`.
pub struct WriteArgs {
    pub path: String,
    pub content: String,
}

/// Reads `path`, then `content`; both are required.
pub fn parse_write_args(args: &JsonValue) -> (r: Result<WriteArgs, ToolError>)
    ensures
        r is Ok <==> (str_field(*args, "path"@) is Some && str_field(*args, "content"@) is Some),
        r matches Ok(a) ==> str_field(*args, "path"@) == Some(a.path@) && str_field(*args, "content"@) == Some(a.content@),
        str_field(*args, "path"@) is None ==> (r matches Err(ToolError::Execution(m)) && m@
            == "missing required parameter 'path'"@),
        str_field(*args, "path"@) is Some && str_field(*args, "content"@) is None ==> (r matches Err(
            ToolError::Execution(m),
        ) && m@ == "missing required parameter 'content'"@),
{
    let path = required_str(args, "path", "missing required parameter 'path'")?;
    let content = required_str(args, "content", "missing required parameter 'content'")?;
    Ok(WriteArgs { path: owned(path), content: owned(content) })
}

/// The report of a write: the byte count of the content and the path.
pub fn write_report(content: &str, shown: &str) -> (r: String)
    ensures
        r@ == "Wrote "@ + decimal(utf8_len(content@)) + " bytes to '"@ + shown@ + "'"@,
{
    let mut m = owned("Wrote ");
    push_decimal_wide(&mut m, str_byte_len(content) as u128);
    push_str(&mut m, " bytes to '");
    push_str(&mut m, shown);
    push_str(&mut m, "'");
    m
}

// ---------------------------------------------------------------------------
// Matches and replacement (`str::matches`, `str::replace`, `str::replacen`)
// ---------------------------------------------------------------------------

/// The number of non-overlapping occurrences of a non-empty `n` in `h`
/// from `from` on, taken left to right.
pub open spec fn count_from(h: Seq<char>, n: Seq<char>, from: int) -> nat
    decreases h.len() + 1 - from,
{
    if n.len() == 0 || from < 0 || from >= h.len() {
        0
    } else if occurs_at(h, n, from) {
        1 + count_from(h, n, from + n.len())
    } else {
        count_from(h, n, from + 1)
    }
}

/// The number of matches `str::matches(n)` yields: for an empty `n`, one at
/// each character boundary.
pub open spec fn match_count(h: Seq<char>, n: Seq<char>) -> nat {
    if n.len() == 0 {
        h.len() + 1
    } else {
        count_from(h, n, 0)
    }
}

/// `h` from `from` on with at most `limit` non-overlapping occurrences of a
/// non-empty `n`, taken left to right, replaced by `t`.
pub open spec fn replace_from(h: Seq<char>, n: Seq<char>, t: Seq<char>, from: int, limit: nat) -> Seq<char>
    decreases h.len() + 1 - from,
{
    if n.len() == 0 || from < 0 || from >= h.len() {
        Seq::empty()
    } else if limit == 0 {
        h.skip(from)
    } else if occurs_at(h, n, from) {
        t + replace_from(h, n, t, from + n.len(), (limit - 1) as nat)
    } else {
        seq![h[from]] + replace_from(h, n, t, from + 1, limit)
    }
}

/// `t` before each character of `h` and at its end (replacing the empty
/// string everywhere).
pub open spec fn interleave(h: Seq<char>, t: Seq<char>) -> Seq<char>
    decreases h.len(),
{
    if h.len() == 0 {
        t
    } else {
        t + seq![h[0]] + interleave(h.drop_first(), t)
    }
}

/// `str::replace(n, t)` when `all`, else `str::replacen(n, t, 1)`.
pub open spec fn replaced(h: Seq<char>, n: Seq<char>, t: Seq<char>, all: bool) -> Seq<char> {
    if n.len() == 0 {
        if all {
            interleave(h, t)
        } else {
            t + h
        }
    } else {
        replace_from(h, n, t, 0, if all { h.len() + 1 } else { 1 })
    }
}

/// Scanning to the next occurrence: no match starts in `from..i`.
proof fn lemma_scan_to(h: Seq<char>, n: Seq<char>, t: Seq<char>, from: int, i: int, limit: nat)
    requires
        n.len() > 0,
        0 <= from <= i <= h.len(),
        forall|k: int| from <= k < i ==> !occurs_at(h, n, k),
        limit > 0,
    ensures
        count_from(h, n, from) == count_from(h, n, i),
        replace_from(h, n, t, from, limit) == h.subrange(from, i) + replace_from(h, n, t, i, limit),
    decreases i - from,
{
    if from < i {
        lemma_scan_to(h, n, t, from + 1, i, limit);
        assert(h.subrange(from, i) =~= seq![h[from]] + h.subrange(from + 1, i));
    } else {
        assert(h.subrange(from, i) =~= Seq::<char>::empty());
    }
}

/// With no occurrence from `from` on, nothing is counted or replaced.
proof fn lemma_scan_rest(h: Seq<char>, n: Seq<char>, t: Seq<char>, from: int, limit: nat)
    requires
        n.len() > 0,
        0 <= from <= h.len(),
        forall|k: int| from <= k ==> !occurs_at(h, n, k),
    ensures
        count_from(h, n, from) == 0,
        replace_from(h, n, t, from, limit) == h.skip(from),
    decreases h.len() - from,
{
    if from < h.len() {
        lemma_scan_rest(h, n, t, from + 1, limit);
        if limit > 0 {
            assert(h.skip(from) =~= seq![h[from]] + h.skip(from + 1));
        }
    } else {
        assert(h.skip(from) =~= Seq::<char>::empty());
    }
}

/// Counts the matches of `n` in `h` and replaces them (all, or the first).
pub fn replace_matches(h: &str, n: &str, t: &str, all: bool) -> (r: (u128, String))
    ensures
        r.0 == match_count(h@, n@),
        r.1@ == replaced(h@, n@, t@, all),
{
    let hv = to_chars(h);
    let nv = to_chars(n);
    if nv.len() == 0 {
        let mut out = String::new();
        if all {
            let mut i: usize = 0;
            assert(h@.skip(0) =~= h@);
            while i < hv.len()
                invariant
                    i <= hv@.len(),
                    hv@ == h@,
                    out@ + interleave(h@.skip(i as int), t@) == interleave(h@, t@),
                decreases hv@.len() - i,
            {
                let ghost before = out@;
                proof {
                    assert(h@.skip(i as int).drop_first() =~= h@.skip(i + 1));
                    assert(h@.skip(i as int)[0] == h@[i as int]);
                }
                push_str(&mut out, t);
                push_char(&mut out, hv[i]);
                assert(out@ + interleave(h@.skip(i + 1), t@) =~= before + interleave(h@.skip(i as int), t@));
                i = i + 1;
            }
            push_str(&mut out, t);
            assert(h@.skip(i as int) =~= Seq::<char>::empty());
            assert(out@ =~= interleave(h@, t@));
        } else {
            push_str(&mut out, t);
            push_str(&mut out, h);
        }
        return ((hv.len() as u128) + 1, out);
    }
    // Count every match.
    let mut count: u128 = 0;
    let mut from: usize = 0;
    loop
        invariant
            hv@ == h@,
            nv@ == n@,
            n@.len() > 0,
            from <= h@.len(),
            count <= from,
            count + count_from(h@, n@, from as int) == count_from(h@, n@, 0),
        ensures
            count == count_from(h@, n@, 0),
        decreases h@.len() - from,
    {
        let found = chars_find_from(hv.as_slice(), nv.as_slice(), from);
        match found {
            None => {
                proof {
                    lemma_scan_rest(h@, n@, t@, from as int, 1);
                }
                break;
            },
            Some(i) => {
                assert(i + n@.len() <= h@.len() && occurs_at(h@, n@, i as int));
                proof {
                    lemma_scan_to(h@, n@, t@, from as int, i as int, 1);
                }
                count = count + 1;
                let hl = hv.len();
                let nl = nv.len();
                assert(i + nl <= hl);
                from = i + nl;
            },
        }
    }
    // Replace up to `left` matches.
    let mut out = String::new();
    let mut left: u128 = if all {
        (hv.len() as u128) + 1
    } else {
        1
    };
    let ghost limit: nat = left as nat;
    let mut from: usize = 0;
    loop
        invariant_except_break
            out@ + replace_from(h@, n@, t@, from as int, left as nat) == replace_from(h@, n@, t@, 0, limit),
        invariant
            hv@ == h@,
            nv@ == n@,
            n@.len() > 0,
            from <= h@.len(),
        ensures
            out@ == replace_from(h@, n@, t@, 0, limit),
        decreases h@.len() - from,
    {
        if left == 0 {
            let rest = string_from_range(hv.as_slice(), from, hv.len());
            let ghost before = out@;
            push_str(&mut out, rest.as_str());
            assert(rest@ =~= h@.skip(from as int));
            proof {
                if from == h@.len() {
                    assert(h@.skip(from as int) =~= Seq::<char>::empty());
                }
            }
            break;
        }
        let found = chars_find_from(hv.as_slice(), nv.as_slice(), from);
        match found {
            None => {
                proof {
                    lemma_scan_rest(h@, n@, t@, from as int, left as nat);
                }
                let rest = string_from_range(hv.as_slice(), from, hv.len());
                push_str(&mut out, rest.as_str());
                assert(rest@ =~= h@.skip(from as int));
                break;
            },
            Some(i) => {
                assert(i + n@.len() <= h@.len() && occurs_at(h@, n@, i as int));
                proof {
                    lemma_scan_to(h@, n@, t@, from as int, i as int, left as nat);
                }
                let hlen = hv.len();
                let nlen = nv.len();
                assert(i + nlen <= hlen);
                let end = i + nlen;
                let ghost before = out@;
                let piece = string_from_range(hv.as_slice(), from, i);
                push_str(&mut out, piece.as_str());
                push_str(&mut out, t);
                assert(out@ + replace_from(h@, n@, t@, end as int, (left - 1) as nat) =~= before + (h@.subrange(from as int, i as int) + t@
                    + replace_from(h@, n@, t@, end as int, (left - 1) as nat)));
                left = left - 1;
                from = end;
            },
        }
    }
    (count, out)
}


// ---------------------------------------------------------------------------
// edit_file
// ---------------------------------------------------------------------------

/// The arguments of `edit_file`.
pub struct EditArgs {
    pub path: String,
    pub old_string: String,
    pub new_string: String,
    pub replace_all: bool,
}

/// The error of missing edit arguments, checked in order.
pub open spec fn edit_args_error(args: JsonValue) -> Option<Seq<char>> {
    if str_field(args, "path"@) is None {
        Some("missing required parameter 'path'"@)
    } else if str_field(args, "old_string"@) is None {
        Some("missing required parameter 'old_string'"@)
    } else if str_field(args, "new_string"@) is None {
        Some("missing required parameter 'new_string'"@)
    } else {
        None
    }
}

/// Reads `path`, `old_string` and `new_string` (required) and
/// `replace_all` (default false).
pub fn parse_edit_args(args: &JsonValue) -> (r: Result<EditArgs, ToolError>)
    ensures
        r is Ok <==> edit_args_error(*args) is None,
        r matches Err(e) ==> edit_args_error(*args) matches Some(m) && e matches ToolError::Execution(x) && x@ == m,
        r matches Ok(a) ==> str_field(*args, "path"@) == Some(a.path@) && str_field(*args, "old_string"@) == Some(
            a.old_string@,
        ) && str_field(*args, "new_string"@) == Some(a.new_string@) && a.replace_all == (bool_field(
            *args,
            "replace_all"@,
        ) == Some(true)),
{
    let path = required_str(args, "path", "missing required parameter 'path'")?;
    let old_string = required_str(args, "old_string", "missing required parameter 'old_string'")?;
    let new_string = required_str(args, "new_string", "missing required parameter 'new_string'")?;
    let replace_all = match args.bool_field("replace_all") {
        Some(b) => b,
        None => false,
    };
    Ok(EditArgs { path: owned(path), old_string: owned(old_string), new_string: owned(new_string), replace_all })
}

/// The outcome of an edit on a file's content: the new content and the
/// report, or why nothing is written.
pub open spec fn edit_outcome(content: Seq<char>, a: EditArgs, shown: Seq<char>) -> Result<(Seq<char>, Seq<char>), Seq<char>> {
    let n = match_count(content, a.old_string@);
    if n == 0 {
        Err("old_string not found in '"@ + shown + "'"@)
    } else if !a.replace_all && n > 1 {
        Err("old_string found "@ + decimal(n) + " times in '"@ + shown
            + "' — use replace_all=true or provide a more specific string"@)
    } else {
        Ok((
            replaced(content, a.old_string@, a.new_string@, a.replace_all),
            "Replaced "@ + decimal(n) + " occurrence(s) in '"@ + shown + "'"@,
        ))
    }
}

/// Applies an edit to a file's content: the new content and the report.
/// A string that does not occur, or occurs more than once without
/// `replace_all`, is an error.
pub fn plan_edit(content: &str, a: &EditArgs, shown: &str) -> (r: Result<(String, String), ToolError>)
    ensures
        match edit_outcome(content@, *a, shown@) {
            Ok((c, m)) => r matches Ok((rc, rm)) && rc@ == c && rm@ == m,
            Err(m) => r matches Err(ToolError::Execution(e)) && e@ == m,
        },
{
    let (n, new_content) = replace_matches(content, a.old_string.as_str(), a.new_string.as_str(), a.replace_all);
    if n == 0 {
        let mut m = owned("old_string not found in '");
        push_str(&mut m, shown);
        push_str(&mut m, "'");
        return Err(ToolError::Execution(m));
    }
    if !a.replace_all && n > 1 {
        let mut m = owned("old_string found ");
        push_decimal_wide(&mut m, n);
        push_str(&mut m, " times in '");
        push_str(&mut m, shown);
        push_str(&mut m, "' — use replace_all=true or provide a more specific string");
        return Err(ToolError::Execution(m));
    }
    let mut m = owned("Replaced ");
    push_decimal_wide(&mut m, n);
    push_str(&mut m, " occurrence(s) in '");
    push_str(&mut m, shown);
    push_str(&mut m, "'");
    Ok((new_content, m))
}


// ---------------------------------------------------------------------------
// notebook_edit
// ---------------------------------------------------------------------------

/// The arguments of `notebook_edit`.
pub struct CellEditArgs {
    pub path: String,
    pub cell_index: u64,
    pub new_source: String,
}

/// The error of missing arguments, checked in order.
pub open spec fn cell_edit_args_error(args: JsonValue) -> Option<Seq<char>> {
    if str_field(args, "path"@) is None {
        Some("missing required parameter 'path'"@)
    } else if u64_field(args, "cell_index"@) is None {
        Some("missing required parameter 'cell_index'"@)
    } else if str_field(args, "new_source"@) is None {
        Some("missing required parameter 'new_source'"@)
    } else {
        None
    }
}

/// Reads `path`, `cell_index` and `new_source`, all required.
pub fn parse_cell_edit_args(args: &JsonValue) -> (r: Result<CellEditArgs, ToolError>)
    ensures
        r is Ok <==> cell_edit_args_error(*args) is None,
        r matches Err(e) ==> cell_edit_args_error(*args) matches Some(m) && e matches ToolError::Execution(x) && x@ == m,
        r matches Ok(a) ==> str_field(*args, "path"@) == Some(a.path@) && u64_field(*args, "cell_index"@) == Some(
            a.cell_index,
        ) && str_field(*args, "new_source"@) == Some(a.new_source@),
{
    let path = required_str(args, "path", "missing required parameter 'path'")?;
    let cell_index = match args.u64_field("cell_index") {
        Some(i) => i,
        None => {
            return Err(ToolError::Execution(owned("missing required parameter 'cell_index'")));
        },
    };
    let new_source = required_str(args, "new_source", "missing required parameter 'new_source'")?;
    Ok(CellEditArgs { path: owned(path), cell_index, new_source: owned(new_source) })
}

/// The source of a cell as notebook lines: every line of the text but the
/// last keeps a newline; no lines at all give one empty line.
pub open spec fn source_lines(s: Seq<char>) -> Seq<Json> {
    let ls = lines_of(s);
    if ls.len() == 0 {
        seq![Json::Str(Seq::empty())]
    } else {
        Seq::new(ls.len(), |i: int| Json::Str(if i < ls.len() - 1 { ls[i] + "\n"@ } else { ls[i] }))
    }
}

/// A cell with its `source` set (a null cell becomes an object).
pub open spec fn with_source(cell: Json, src: Json) -> Json {
    match cell {
        Json::Object(m) => Json::Object(put(m, "source"@, src)),
        _ => Json::Object(seq![("source"@, src)]),
    }
}

/// The cells of a notebook: the first `cells` member, when it is an array.
pub open spec fn notebook_cells(nb: Json) -> Option<(int, Seq<Json>)> {
    match nb {
        Json::Object(m) => match key_index(m, "cells"@) {
            Some(k) => match m[k].1 {
                Json::Array(cells) => Some((k, cells)),
                _ => None,
            },
            None => None,
        },
        _ => None,
    }
}

/// The cell at `index` can take a `source`: it is an object or null.
pub open spec fn cell_settable(nb: Json, index: int) -> bool {
    match notebook_cells(nb) {
        Some((_, cells)) => 0 <= index < cells.len() ==> (cells[index] is Object || cells[index] is Null),
        None => true,
    }
}

/// Whether the source of cell `index` can be set: when the notebook has
/// that cell, it is an object or null.
pub fn cell_can_take_source(nb: &JsonValue, index: u64) -> (r: bool)
    ensures
        r == cell_settable(nb@, index as int),
{
    match nb {
        JsonValue::Object(members) => {
            proof {
                lemma_object_view(*members);
            }
            let ghost mv = members_view(members@);
            let mut k: usize = 0;
            while k < members.len() && !crate::text::str_eq(members[k].0.as_str(), "cells")
                invariant
                    k <= members@.len(),
                    mv == members_view(members@),
                    forall|j: int| 0 <= j < k ==> mv[j].0 != "cells"@,
                decreases members@.len() - k,
            {
                k = k + 1;
            }
            proof {
                crate::schema::lemma_key_index_pub(mv, "cells"@);
            }
            if k == members.len() {
                return true;
            }
            proof {
                crate::schema::lemma_key_index_at_pub(mv, "cells"@, k as int);
            }
            match &members[k].1 {
                JsonValue::Array(cells) => {
                    proof {
                        lemma_array_view(*cells);
                    }
                    if (index as u128) < (cells.len() as u128) {
                        let i = index as usize;
                        match &cells[i] {
                            JsonValue::Object(_) => true,
                            JsonValue::Null => true,
                            _ => false,
                        }
                    } else {
                        true
                    }
                },
                _ => true,
            }
        },
        _ => true,
    }
}

fn source_json(s: &str) -> (r: JsonValue)
    ensures
        r@ == Json::Array(source_lines(s@)),
{
    let v = to_chars(s);
    let lines = split_lines(v.as_slice());
    let ghost ls = lines_of(s@);
    let mut out: Vec<JsonValue> = Vec::new();
    if lines.len() == 0 {
        out.push(JsonValue::Str(String::new()));
        proof {
            lemma_array_view(out);
            assert(out@.map_values(|x: JsonValue| x@) =~= source_lines(s@));
        }
        return JsonValue::Array(out);
    }
    let mut i: usize = 0;
    while i < lines.len()
        invariant
            i <= ls.len(),
            views(lines@) == ls,
            ls == lines_of(s@),
            ls.len() > 0,
            out@.len() == i,
            forall|k: int| 0 <= k < i ==> (#[trigger] out@[k])@ == source_lines(s@)[k],
        decreases ls.len() - i,
    {
        let mut t = string_from_chars(lines[i].as_slice());
        proof {
            assert(views(lines@)[i as int] == lines@[i as int]@);
        }
        if i + 1 < lines.len() {
            push_str(&mut t, "\n");
        }
        out.push(JsonValue::Str(t));
        i = i + 1;
    }
    proof {
        lemma_array_view(out);
        assert(out@.map_values(|x: JsonValue| x@) =~= source_lines(s@));
    }
    JsonValue::Array(out)
}

/// Sets a cell's `source` to `src`.
fn set_source(cell: JsonValue, src: JsonValue) -> (r: JsonValue)
    requires
        cell@ is Object || cell@ is Null,
    ensures
        r@ == with_source(cell@, src@),
{
    match cell {
        JsonValue::Object(mut m) => {
            proof {
                lemma_object_view(m);
            }
            put_member(&mut m, owned("source"), src);
            proof {
                lemma_object_view(m);
            }
            JsonValue::Object(m)
        },
        _ => {
            let mut m: Vec<(String, JsonValue)> = Vec::new();
            m.push((owned("source"), src));
            proof {
                lemma_object_view(m);
                assert(m@.map_values(|e: (String, JsonValue)| (e.0@, e.1@)) =~= seq![("source"@, src@)]);
            }
            JsonValue::Object(m)
        },
    }
}

/// Replaces the source of one notebook cell; the notebook must have a
/// `cells` array and the index must lie in it.
pub fn set_cell_source(nb: JsonValue, index: u64, new_source: &str) -> (r: Result<JsonValue, ToolError>)
    requires
        cell_settable(nb@, index as int),
    ensures
        match notebook_cells(nb@) {
            None => r matches Err(ToolError::Execution(m)) && m@ == "notebook has no 'cells' array"@,
            Some((k, cells)) => if index < cells.len() {
                r matches Ok(j) && match nb@ {
                    Json::Object(m) => j@ == Json::Object(
                        m.update(k, ("cells"@, Json::Array(cells.update(index as int, with_source(cells[index as int], Json::Array(source_lines(new_source@))))))),
                    ),
                    _ => false,
                }
            } else {
                r matches Err(ToolError::Execution(m)) && m@ == "cell_index "@ + decimal(index as nat)
                    + " out of range (notebook has "@ + decimal(cells.len()) + " cells)"@
            },
        },
{
    let ghost nv = nb@;
    let mut members = match nb {
        JsonValue::Object(m) => m,
        _ => {
            return Err(ToolError::Execution(owned("notebook has no 'cells' array")));
        },
    };
    proof {
        lemma_object_view(members);
    }
    let ghost mv = members_view(members@);
    assert(nv == Json::Object(mv));
    let mut k: usize = 0;
    while k < members.len() && !crate::text::str_eq(members[k].0.as_str(), "cells")
        invariant
            k <= members@.len(),
            mv == members_view(members@),
            forall|j: int| 0 <= j < k ==> mv[j].0 != "cells"@,
        decreases members@.len() - k,
    {
        k = k + 1;
    }
    proof {
        crate::schema::lemma_key_index_pub(mv, "cells"@);
    }
    if k == members.len() {
        return Err(ToolError::Execution(owned("notebook has no 'cells' array")));
    }
    proof {
        crate::schema::lemma_key_index_at_pub(mv, "cells"@, k as int);
    }
    let (key, value) = members.remove(k);
    let mut cells = match value {
        JsonValue::Array(c) => c,
        _ => {
            return Err(ToolError::Execution(owned("notebook has no 'cells' array")));
        },
    };
    proof {
        lemma_array_view(cells);
    }
    let ghost cv = cells@.map_values(|x: JsonValue| x@);
    if (index as u128) >= (cells.len() as u128) {
        let mut m = owned("cell_index ");
        crate::text::push_decimal(&mut m, index);
        push_str(&mut m, " out of range (notebook has ");
        push_decimal_wide(&mut m, cells.len() as u128);
        push_str(&mut m, " cells)");
        return Err(ToolError::Execution(m));
    }
    let i = index as usize;
    let cell = cells.remove(i);
    assert(cell@ == cv[i as int]);
    let src = source_json(new_source);
    let updated = set_source(cell, src);
    cells.insert(i, updated);
    proof {
        lemma_array_view(cells);
        assert(cells@.map_values(|x: JsonValue| x@) =~= cv.update(i as int, with_source(cv[i as int], Json::Array(source_lines(new_source@)))));
    }
    let arr = JsonValue::Array(cells);
    members.insert(k, (key, arr));
    proof {
        lemma_object_view(members);
        assert(members_view(members@) =~= mv.update(k as int, ("cells"@, arr@)));
    }
    Ok(JsonValue::Object(members))
}

/// The report of a cell edit.
pub fn cell_edit_report(index: u64, shown: &str) -> (r: String)
    ensures
        r@ == "Updated cell "@ + decimal(index as nat) + " in '"@ + shown@ + "'"@,
{
    let mut m = owned("Updated cell ");
    crate::text::push_decimal(&mut m, index);
    push_str(&mut m, " in '");
    push_str(&mut m, shown);
    push_str(&mut m, "'");
    m
}

} // verus!
