//! Directory listings: which entries are shown, their order (directories
//! first, then by name) and the aligned table.
use vstd::prelude::*;

use crate::error::ToolError;
use crate::json::{bool_field, str_field, u64_field, JsonValue};
use crate::text::{owned, push_char, push_str, str_byte_len, to_chars, utf8_len};

verus! {

/// The arguments of a listing.
pub struct ListArgs {
    pub path: String,
    pub depth: u64,
    pub show_hidden: bool,
}

/// Reads the arguments: `path` defaults to `.`, `depth` to 1, hidden
/// entries are left out unless asked for.
pub fn parse_list_args(args: &JsonValue) -> (r: ListArgs)
    ensures
        r.path@ == match str_field(*args, "path"@) {
            Some(p) => p,
            None => "."@,
        },
        r.depth == match u64_field(*args, "depth"@) {
            Some(d) => d,
            None => 1,
        },
        r.show_hidden == (bool_field(*args, "show_hidden"@) == Some(true)),
{
    let path = match args.str_field("path") {
        Some(p) => owned(p),
        None => owned("."),
    };
    let depth = match args.u64_field("depth") {
        Some(d) => d,
        None => 1,
    };
    let show_hidden = match args.bool_field("show_hidden") {
        Some(b) => b,
        None => false,
    };
    ListArgs { path, depth, show_hidden }
}

/// Whether an entry with this file name is listed: hidden names (starting
/// with `.`) only when asked for.
pub fn is_listed(show_hidden: bool, base_name: &str) -> (r: bool)
    ensures
        r == (show_hidden || !(base_name@.len() > 0 && base_name@[0] == '.')),
{
    if show_hidden {
        return true;
    }
    let v = to_chars(base_name);
    !(v.len() > 0 && v[0] == '.')
}

/// The kind of a listed entry.
#[derive(PartialEq, Eq, Structural)]
pub enum EntryKind {
    Dir,
    File,
    Symlink,
}

/// One listed entry: its path relative to the listed directory, its kind,
/// and its size as shown (files only).
pub struct ListEntry {
    pub name: String,
    pub kind: EntryKind,
    pub size: Option<String>,
}

// ---------------------------------------------------------------------------
// Order
// ---------------------------------------------------------------------------

/// Lexicographic order of code points (the byte order of UTF-8 text, which
/// is how `String` compares).
pub open spec fn lex_lt(a: Seq<char>, b: Seq<char>) -> bool
    decreases a.len(),
{
    if a.len() == 0 {
        b.len() > 0
    } else if b.len() == 0 {
        false
    } else if a[0] == b[0] {
        lex_lt(a.drop_first(), b.drop_first())
    } else {
        (a[0] as int) < (b[0] as int)
    }
}

proof fn lemma_lex_irrefl(a: Seq<char>)
    ensures
        !lex_lt(a, a),
    decreases a.len(),
{
    if a.len() > 0 {
        lemma_lex_irrefl(a.drop_first());
    }
}

proof fn lemma_lex_total(a: Seq<char>, b: Seq<char>)
    ensures
        a == b || lex_lt(a, b) || lex_lt(b, a),
    decreases a.len(),
{
    if a.len() > 0 && b.len() > 0 && a[0] == b[0] {
        lemma_lex_total(a.drop_first(), b.drop_first());
        if a.drop_first() == b.drop_first() {
            assert(a =~= seq![a[0]] + a.drop_first());
            assert(b =~= seq![b[0]] + b.drop_first());
        }
    } else if a.len() == 0 && b.len() == 0 {
        assert(a =~= b);
    } else if a.len() > 0 && b.len() > 0 {
        assert((a[0] as int) != (b[0] as int));
    }
}

proof fn lemma_lex_trans(a: Seq<char>, b: Seq<char>, c: Seq<char>)
    requires
        lex_lt(a, b),
        lex_lt(b, c),
    ensures
        lex_lt(a, c),
    decreases a.len(),
{
    if a.len() > 0 && b.len() > 0 && c.len() > 0 && a[0] == b[0] && b[0] == c[0] {
        lemma_lex_trans(a.drop_first(), b.drop_first(), c.drop_first());
    }
}

proof fn lemma_lex_asym(a: Seq<char>, b: Seq<char>)
    requires
        lex_lt(a, b),
    ensures
        !lex_lt(b, a),
    decreases a.len(),
{
    if a.len() > 0 && b.len() > 0 && a[0] == b[0] {
        lemma_lex_asym(a.drop_first(), b.drop_first());
    }
}

/// Directories come before other entries; within each group, names in
/// lexicographic order.
pub open spec fn entry_lt(a: ListEntry, b: ListEntry) -> bool {
    (a.kind == EntryKind::Dir && b.kind != EntryKind::Dir) || ((a.kind == EntryKind::Dir) == (b.kind
        == EntryKind::Dir) && lex_lt(a.name@, b.name@))
}

/// Position `a` of `es` is listed before position `b`: it sorts strictly
/// earlier, or it sorts equal and came first.
pub open spec fn listed_before(es: Seq<ListEntry>, a: int, b: int) -> bool {
    entry_lt(es[a], es[b]) || (!entry_lt(es[b], es[a]) && a < b)
}

pub open spec fn placed(order: Seq<usize>, i: int) -> bool {
    exists|k: int| 0 <= k < order.len() && order[k] == i
}

/// `order` lists every position of `es` once, in listing order.
pub open spec fn is_listing_order(es: Seq<ListEntry>, order: Seq<usize>) -> bool {
    &&& order.len() == es.len()
    &&& forall|k: int| 0 <= k < order.len() ==> 0 <= #[trigger] order[k] < es.len()
    &&& forall|i: int| 0 <= i < es.len() ==> #[trigger] placed(order, i)
    &&& forall|a: int, b: int|
        0 <= a < b < order.len() ==> listed_before(es, #[trigger] order[a] as int, #[trigger] order[b] as int)
}

proof fn lemma_entry_lt_trans(a: ListEntry, b: ListEntry, c: ListEntry)
    requires
        entry_lt(a, b),
        entry_lt(b, c),
    ensures
        entry_lt(a, c),
{
    if (a.kind == EntryKind::Dir) == (b.kind == EntryKind::Dir) && (b.kind == EntryKind::Dir) == (c.kind
        == EntryKind::Dir) {
        lemma_lex_trans(a.name@, b.name@, c.name@);
    }
}

proof fn lemma_entry_lt_asym(a: ListEntry, b: ListEntry)
    requires
        entry_lt(a, b),
    ensures
        !entry_lt(b, a),
{
    if (a.kind == EntryKind::Dir) == (b.kind == EntryKind::Dir) {
        lemma_lex_asym(a.name@, b.name@);
    }
}

/// When neither sorts before the other, they sort alike against any third.
proof fn lemma_entry_eq_class(a: ListEntry, b: ListEntry, c: ListEntry)
    requires
        !entry_lt(a, b),
        !entry_lt(b, a),
    ensures
        entry_lt(a, c) == entry_lt(b, c),
        entry_lt(c, a) == entry_lt(c, b),
{
    lemma_lex_total(a.name@, b.name@);
}

fn kind_is_dir(k: &EntryKind) -> (r: bool)
    ensures
        r == (*k == EntryKind::Dir),
{
    match k {
        EntryKind::Dir => true,
        _ => false,
    }
}

fn chars_lex_lt(a: &[char], b: &[char]) -> (r: bool)
    ensures
        r == lex_lt(a@, b@),
{
    let mut i: usize = 0;
    assert(a@.skip(0) =~= a@);
    assert(b@.skip(0) =~= b@);
    while i < a.len() && i < b.len()
        invariant
            i <= a@.len(),
            i <= b@.len(),
            lex_lt(a@, b@) == lex_lt(a@.skip(i as int), b@.skip(i as int)),
        decreases a@.len() - i,
    {
        let x = a[i];
        let y = b[i];
        if x != y {
            return x < y;
        }
        proof {
            assert(a@.skip(i as int).drop_first() =~= a@.skip(i + 1));
            assert(b@.skip(i as int).drop_first() =~= b@.skip(i + 1));
        }
        i = i + 1;
    }
    b.len() > i
}

/// Whether entry `a` sorts strictly before entry `b`.
fn entry_before(a: &ListEntry, b: &ListEntry) -> (r: bool)
    ensures
        r == entry_lt(*a, *b),
{
    let ad = kind_is_dir(&a.kind);
    let bd = kind_is_dir(&b.kind);
    if ad && !bd {
        return true;
    }
    if ad != bd {
        return false;
    }
    let an = to_chars(a.name.as_str());
    let bn = to_chars(b.name.as_str());
    chars_lex_lt(an.as_slice(), bn.as_slice())
}

/// The listing order of the entries.
fn listing_order(es: &Vec<ListEntry>) -> (order: Vec<usize>)
    ensures
        is_listing_order(es@, order@),
{
    let ghost e = es@;
    let mut order: Vec<usize> = Vec::new();
    let mut i: usize = 0;
    while i < es.len()
        invariant
            i <= es@.len(),
            e == es@,
            order@.len() == i,
            forall|k: int| 0 <= k < order@.len() ==> 0 <= #[trigger] order@[k] < i,
            forall|j: int| 0 <= j < i ==> #[trigger] placed(order@, j),
            forall|a: int, b: int|
                0 <= a < b < order@.len() ==> listed_before(e, #[trigger] order@[a] as int, #[trigger] order@[b] as int),
        decreases es@.len() - i,
    {
        let mut p: usize = 0;
        while p < order.len() && !entry_before(&es[i], &es[order[p]])
            invariant
                p <= order@.len(),
                i < es@.len(),
                e == es@,
                forall|k: int| 0 <= k < order@.len() ==> 0 <= #[trigger] order@[k] < i,
                forall|k: int| 0 <= k < p ==> !entry_lt(e[i as int], e[#[trigger] order@[k] as int]),
            decreases order@.len() - p,
        {
            p = p + 1;
        }
        let ghost before = order@;
        proof {
            assert forall|k: int| p <= k < before.len() implies entry_lt(e[i as int], e[#[trigger] before[k] as int]) by {
                let x = e[i as int];
                let y = e[before[p as int] as int];
                let z = e[before[k] as int];
                assert(entry_lt(x, y));
                if k > p {
                    assert(listed_before(e, before[p as int] as int, before[k] as int));
                    if entry_lt(y, z) {
                        lemma_entry_lt_trans(x, y, z);
                    } else {
                        lemma_entry_eq_class(y, z, x);
                    }
                }
            }
        }
        order.insert(p, i);
        proof {
            assert forall|j: int| 0 <= j < i + 1 implies #[trigger] placed(order@, j) by {
                if j == i {
                    assert(order@[p as int] == i);
                } else {
                    assert(placed(before, j));
                    let k = choose|k: int| 0 <= k < before.len() && before[k] == j;
                    if k < p {
                        assert(order@[k] == j);
                    } else {
                        assert(order@[k + 1] == j);
                    }
                }
            }
            assert forall|a: int, b: int|
                0 <= a < b < order@.len() implies listed_before(e, #[trigger] order@[a] as int, #[trigger] order@[b] as int) by {
                if a < p && b < p {
                    assert(listed_before(e, before[a] as int, before[b] as int));
                } else if a < p && b == p {
                    assert(!entry_lt(e[i as int], e[before[a] as int]));
                } else if a < p && b > p {
                    assert(listed_before(e, before[a] as int, before[b - 1] as int));
                } else if a == p {
                    let z = e[before[b - 1] as int];
                    assert(entry_lt(e[i as int], z));
                    lemma_entry_lt_asym(e[i as int], z);
                } else {
                    assert(listed_before(e, before[a - 1] as int, before[b - 1] as int));
                }
            }
        }
        i = i + 1;
    }
    order
}

/// Sorts entries: directories first, then by name; entries that sort alike
/// keep their order.
pub fn sort_entries(entries: Vec<ListEntry>) -> (r: Vec<ListEntry>)
    ensures
        exists|order: Seq<usize>|
            #![trigger is_listing_order(entries@, order)]
            is_listing_order(entries@, order) && r@.len() == order.len() && forall|k: int|
                0 <= k < order.len() ==> r@[k] == entries@[#[trigger] order[k] as int],
{
    let order = listing_order(&entries);
    let ghost e = entries@;
    let mut slots: Vec<Option<ListEntry>> = Vec::new();
    let mut rest = entries;
    let n = rest.len();
    while rest.len() > 0
        invariant
            slots@.len() + rest@.len() == n == e.len(),
            rest@ == e.skip(slots@.len() as int),
            forall|k: int| 0 <= k < slots@.len() ==> slots@[k] == Some(e[k]),
        decreases rest@.len(),
    {
        let ghost k = slots@.len() as int;
        let x = rest.remove(0);
        assert(x == e[k]);
        assert(rest@ =~= e.skip(k + 1));
        slots.push(Some(x));
    }
    let mut out: Vec<ListEntry> = Vec::new();
    let mut k: usize = 0;
    while k < order.len()
        invariant
            k <= order@.len() == e.len() == slots@.len(),
            is_listing_order(e, order@),
            out@.len() == k,
            forall|m: int| 0 <= m < k ==> out@[m] == e[#[trigger] order@[m] as int],
            forall|m: int| 0 <= m < slots@.len() ==> (slots@[m] is None <==> exists|q: int| 0 <= q < k && order@[q] == m),
            forall|m: int| 0 <= m < slots@.len() && slots@[m] is Some ==> slots@[m] == Some(e[m]),
        decreases order@.len() - k,
    {
        let idx = order[k];
        proof {
            if slots@[idx as int] is None {
                let q = choose|q: int| 0 <= q < k && order@[q] == idx;
                assert(listed_before(e, order@[q] as int, order@[k as int] as int));
                lemma_lex_irrefl(e[idx as int].name@);
            }
        }
        let taken = slots.remove(idx);
        slots.insert(idx, None);
        out.push(taken.unwrap());
        proof {
            assert forall|m: int| 0 <= m < slots@.len() implies (slots@[m] is None <==> exists|q: int|
                0 <= q < k + 1 && order@[q] == m) by {
                if m == idx {
                    assert(order@[k as int] == m);
                } else if exists|q: int| 0 <= q < k + 1 && order@[q] == m {
                    let q = choose|q: int| 0 <= q < k + 1 && order@[q] == m;
                    assert(q < k);
                }
            }
        }
        k = k + 1;
    }
    out
}

// ---------------------------------------------------------------------------
// The table
// ---------------------------------------------------------------------------

pub open spec fn kind_text(k: EntryKind) -> Seq<char> {
    match k {
        EntryKind::Dir => "dir"@,
        EntryKind::File => "file"@,
        EntryKind::Symlink => "symlink"@,
    }
}

/// `s` padded with spaces to `w` characters (`{:<w$}`).
pub open spec fn pad_right(s: Seq<char>, w: nat) -> Seq<char> {
    if s.len() >= w {
        s
    } else {
        s + Seq::new((w - s.len()) as nat, |i: int| ' ')
    }
}

/// The largest byte length of a name.
pub open spec fn name_width(es: Seq<ListEntry>) -> nat
    decreases es.len(),
{
    if es.len() == 0 {
        0
    } else {
        let w = name_width(es.drop_last());
        let l = utf8_len(es.last().name@);
        if l > w {
            l
        } else {
            w
        }
    }
}

/// The largest length of a kind.
pub open spec fn kind_width(es: Seq<ListEntry>) -> nat
    decreases es.len(),
{
    if es.len() == 0 {
        0
    } else {
        let w = kind_width(es.drop_last());
        let l = kind_text(es.last().kind).len();
        if l > w {
            l
        } else {
            w
        }
    }
}

/// One row: the name and the kind padded to their widths, then the size
/// (`-` when there is none).
pub open spec fn row_text(e: ListEntry, nw: nat, kw: nat) -> Seq<char> {
    pad_right(e.name@, nw) + "  "@ + pad_right(kind_text(e.kind), kw) + "  "@ + match e.size {
        Some(s) => s@,
        None => "-"@,
    } + "\n"@
}

pub open spec fn rows_text(es: Seq<ListEntry>, nw: nat, kw: nat) -> Seq<char>
    decreases es.len(),
{
    if es.len() == 0 {
        Seq::empty()
    } else {
        rows_text(es.drop_last(), nw, kw) + row_text(es.last(), nw, kw)
    }
}

/// The listing of sorted entries, or a notice for an empty directory.
pub open spec fn listing_text(es: Seq<ListEntry>, shown_dir: Seq<char>) -> Seq<char> {
    if es.len() == 0 {
        "Empty directory: '"@ + shown_dir + "'"@
    } else {
        rows_text(es, name_width(es), kind_width(es))
    }
}

fn push_padded(out: &mut String, s: &str, w: u128)
    ensures
        final(out)@ == old(out)@ + pad_right(s@, w as nat),
{
    let v = to_chars(s);
    push_str(out, s);
    let mut k: u128 = v.len() as u128;
    let ghost o = out@;
    if k >= w {
        return;
    }
    assert(out@ =~= o + Seq::new((k - v@.len()) as nat, |i: int| ' '));
    while k < w
        invariant
            v@.len() <= k <= w,
            v@ == s@,
            out@ == o + Seq::new((k - v@.len()) as nat, |i: int| ' '),
        decreases w - k,
    {
        push_char(out, ' ');
        assert(out@ =~= o + Seq::new((k + 1 - v@.len()) as nat, |i: int| ' '));
        k = k + 1;
    }
}

fn kind_str(k: &EntryKind) -> (r: &'static str)
    ensures
        r@ == kind_text(*k),
{
    match k {
        EntryKind::Dir => "dir",
        EntryKind::File => "file",
        EntryKind::Symlink => "symlink",
    }
}

fn kind_len(k: &EntryKind) -> (r: u128)
    ensures
        r == kind_text(*k).len(),
        r <= 7,
{
    proof {
        reveal_strlit("dir");
        reveal_strlit("file");
        reveal_strlit("symlink");
    }
    match k {
        EntryKind::Dir => 3,
        EntryKind::File => 4,
        EntryKind::Symlink => 7,
    }
}

/// Formats sorted entries as an aligned table.
pub fn format_listing(entries: &Vec<ListEntry>, shown_dir: &str) -> (r: String)
    ensures
        r@ == listing_text(entries@, shown_dir@),
{
    if entries.len() == 0 {
        let mut m = owned("Empty directory: '");
        push_str(&mut m, shown_dir);
        push_str(&mut m, "'");
        return m;
    }
    let ghost es = entries@;
    let mut nw: u128 = 0;
    let mut kw: u128 = 0;
    let mut i: usize = 0;
    while i < entries.len()
        invariant
            i <= es.len(),
            es == entries@,
            nw == name_width(es.take(i as int)),
            kw == kind_width(es.take(i as int)),
            nw <= i * (usize::MAX as int),
            kw <= 7,
        decreases es.len() - i,
    {
        proof {
            assert(es.take(i + 1).drop_last() =~= es.take(i as int));
        }
        let l = str_byte_len(entries[i].name.as_str()) as u128;
        if l > nw {
            nw = l;
        }
        let kl = kind_len(&entries[i].kind);
        if kl > kw {
            kw = kl;
        }
        i = i + 1;
    }
    assert(es.take(i as int) =~= es);
    let mut out = String::new();
    let mut i: usize = 0;
    while i < entries.len()
        invariant
            i <= es.len(),
            es == entries@,
            nw == name_width(es),
            kw == kind_width(es),
            out@ == rows_text(es.take(i as int), nw as nat, kw as nat),
        decreases es.len() - i,
    {
        let ghost before = out@;
        let e = &entries[i];
        push_padded(&mut out, e.name.as_str(), nw);
        push_str(&mut out, "  ");
        push_padded(&mut out, kind_str(&e.kind), kw);
        push_str(&mut out, "  ");
        match &e.size {
            Some(s) => push_str(&mut out, s.as_str()),
            None => push_str(&mut out, "-"),
        }
        push_str(&mut out, "\n");
        proof {
            assert(es.take(i + 1).drop_last() =~= es.take(i as int));
        }
        assert(out@ =~= rows_text(es.take(i + 1), nw as nat, kw as nat));
        i = i + 1;
    }
    assert(es.take(i as int) =~= es);
    out
}

} // verus!
