//! The match scan of a content search, file by file, and its report.
use vstd::prelude::*;
use vstd::utf8::{decode_utf8, valid_utf8};

use crate::content::{binary_bytes, decode_utf8_strict, looks_binary};
use crate::search::{regex_matches, SearchArgs, SearchRegex};
use crate::text::{
    decimal, lines_of, owned, push_char, push_decimal_wide, push_str, split_lines, str_eq,
    string_from_chars, to_chars, views,
};

verus! {

/// The indices of the lines in which the pattern finds a match, in order.
pub open spec fn hit_lines(lines: Seq<Seq<char>>, pat: Seq<char>, ml: bool) -> Seq<int>
    decreases lines.len(),
{
    if lines.len() == 0 {
        Seq::empty()
    } else {
        let h = hit_lines(lines.drop_last(), pat, ml);
        if regex_matches(pat, ml, lines.last()) {
            h.push(lines.len() - 1)
        } else {
            h
        }
    }
}

/// The first `room` hits, or all of them when there are fewer.
pub open spec fn first_hits(hits: Seq<int>, room: int) -> Seq<int> {
    if hits.len() <= room {
        hits
    } else {
        hits.take(room)
    }
}

/// How many of `n` new hits fall at or before the offset, when `count`
/// hits were seen before them.
pub open spec fn skipped_in(count: nat, offset: nat, n: nat) -> nat {
    if count >= offset {
        0
    } else if n <= offset - count {
        n
    } else {
        (offset - count) as nat
    }
}

/// `path:line:text` for a hit without context.
pub open spec fn line_entry(rel: Seq<char>, lines: Seq<Seq<char>>, idx: int) -> Seq<char> {
    rel + ":"@ + decimal((idx + 1) as nat) + ":"@ + lines[idx]
}

/// One line of a context block, marked with `>` when it is the hit.
pub open spec fn context_entry(lines: Seq<Seq<char>>, i: int, idx: int) -> Seq<char> {
    (if i == idx {
        ">"@
    } else {
        " "@
    }) + decimal((i + 1) as nat) + ": "@ + lines[i]
}

pub open spec fn context_start(idx: int, ctx: int) -> int {
    if idx >= ctx {
        idx - ctx
    } else {
        0
    }
}

pub open spec fn context_end(idx: int, ctx: int, n: int) -> int {
    if idx + ctx + 1 <= n {
        idx + ctx + 1
    } else {
        n
    }
}

/// The output entries of one hit: one line, or with context a block of
/// `path:`, the surrounding lines and an empty line.
pub open spec fn hit_entries(rel: Seq<char>, lines: Seq<Seq<char>>, idx: int, ctx: nat) -> Seq<Seq<char>> {
    if ctx == 0 {
        seq![line_entry(rel, lines, idx)]
    } else {
        let s = context_start(idx, ctx as int);
        let e = context_end(idx, ctx as int, lines.len() as int);
        seq![rel + ":"@] + Seq::new((e - s) as nat, |j: int| context_entry(lines, s + j, idx))
            + seq![Seq::<char>::empty()]
    }
}

/// The output entries of a sequence of hits.
pub open spec fn entries_for(rel: Seq<char>, lines: Seq<Seq<char>>, hits: Seq<int>, ctx: nat) -> Seq<Seq<char>>
    decreases hits.len(),
{
    if hits.len() == 0 {
        Seq::empty()
    } else {
        entries_for(rel, lines, hits.drop_last(), ctx) + hit_entries(rel, lines, hits.last(), ctx)
    }
}

pub open spec fn string_views(v: Seq<String>) -> Seq<Seq<char>> {
    v.map_values(|s: String| s@)
}

pub open spec fn file_views(v: Seq<(String, u128)>) -> Seq<(Seq<char>, nat)> {
    v.map_values(|e: (String, u128)| (e.0@, e.1 as nat))
}

proof fn lemma_hits_step(lines: Seq<Seq<char>>, pat: Seq<char>, ml: bool, i: int)
    requires
        0 <= i < lines.len(),
    ensures
        hit_lines(lines.take(i + 1), pat, ml) == if regex_matches(pat, ml, lines[i]) {
            hit_lines(lines.take(i), pat, ml).push(i)
        } else {
            hit_lines(lines.take(i), pat, ml)
        },
{
    assert(lines.take(i + 1).drop_last() =~= lines.take(i));
}

proof fn lemma_hits_prefix(lines: Seq<Seq<char>>, pat: Seq<char>, ml: bool, i: int)
    requires
        0 <= i <= lines.len(),
    ensures
        hit_lines(lines.take(i), pat, ml).len() <= hit_lines(lines, pat, ml).len(),
        hit_lines(lines, pat, ml).take(hit_lines(lines.take(i), pat, ml).len() as int) == hit_lines(
            lines.take(i),
            pat,
            ml,
        ),
    decreases lines.len() - i,
{
    let h = hit_lines(lines.take(i), pat, ml);
    if i == lines.len() {
        assert(lines.take(i) =~= lines);
        assert(h.take(h.len() as int) =~= h);
    } else {
        lemma_hits_prefix(lines, pat, ml, i + 1);
        lemma_hits_step(lines, pat, ml, i);
        let h1 = hit_lines(lines.take(i + 1), pat, ml);
        let all = hit_lines(lines, pat, ml);
        assert(all.take(h.len() as int) =~= all.take(h1.len() as int).take(h.len() as int));
        assert(h1.take(h.len() as int) =~= h);
    }
}

/// The running state of a content search: the hits counted so far, the
/// ones skipped by the offset, the output entries and the files with hits.
pub struct SearchScan {
    limit: u128,
    offset: u128,
    context: u64,
    mode: String,
    count: u128,
    skipped: u128,
    entries: Vec<String>,
    files: Vec<(String, u128)>,
}

/// `n` is the scan `o` after one file's text: the hits of its lines, up to
/// the limit, are counted; those at or before the offset are skipped; in
/// the content mode the rest become entries; a file with hits is recorded
/// with its number of hits.
pub open spec fn scan_step(o: SearchScan, n: SearchScan, rel: Seq<char>, content: Seq<char>, pat: Seq<char>, ml: bool) -> bool {
    let lines = lines_of(content);
    let taken = first_hits(
        hit_lines(lines, pat, ml),
        o.limit() - o.count(),
    );
    let s = skipped_in(o.count(), o.offset(), taken.len());
    &&& n.limit() == o.limit()
    &&& n.offset() == o.offset()
    &&& n.context() == o.context()
    &&& n.mode() == o.mode()
    &&& n.count() == o.count() + taken.len()
    &&& n.skipped() == o.skipped() + s
    &&& n.entries() == o.entries() + (if o.mode() == "content"@ {
        entries_for(rel, lines, taken.skip(s as int), o.context())
    } else {
        Seq::empty()
    })
    &&& n.files() == o.files() + (if taken.len() > 0 {
        seq![(rel, taken.len())]
    } else {
        Seq::empty()
    })
}

impl SearchScan {
    /// How many hits the search counts at most (results plus offset).
    pub closed spec fn limit(&self) -> nat {
        self.limit as nat
    }

    pub closed spec fn offset(&self) -> nat {
        self.offset as nat
    }

    pub closed spec fn context(&self) -> nat {
        self.context as nat
    }

    pub closed spec fn mode(&self) -> Seq<char> {
        self.mode@
    }

    /// Hits counted so far.
    pub closed spec fn count(&self) -> nat {
        self.count as nat
    }

    /// Hits at or before the offset, which produce no output.
    pub closed spec fn skipped(&self) -> nat {
        self.skipped as nat
    }

    /// Output entries of the content mode.
    pub closed spec fn entries(&self) -> Seq<Seq<char>> {
        string_views(self.entries@)
    }

    /// Files with hits and their hit counts, in scan order.
    pub closed spec fn files(&self) -> Seq<(Seq<char>, nat)> {
        file_views(self.files@)
    }

    pub closed spec fn wf(&self) -> bool {
        &&& self.skipped <= self.count <= self.limit
        &&& self.offset <= self.limit <= 2 * (u64::MAX as int)
        &&& self.skipped == if self.count <= self.offset {
            self.count
        } else {
            self.offset
        }
    }

    /// The hits shown (those past the offset) never exceed the limit less
    /// the offset, that is the `max_results` the scan was made with.
    pub proof fn lemma_shown_at_most(&self)
        requires
            self.wf(),
        ensures
            self.count() - self.skipped() <= self.limit() - self.offset(),
            self.skipped() <= self.count(),
    {
    }

    /// A fresh scan for the given arguments; the count limit, results plus
    /// offset, must fit in a `usize`.
    pub fn new(args: &SearchArgs) -> (r: SearchScan)
        requires
            args.max_results + args.offset <= usize::MAX,
        ensures
            r.wf(),
            r.limit() == args.max_results + args.offset,
            r.offset() == args.offset,
            r.context() == args.context_lines,
            r.mode() == args.output_mode@,
            r.count() == 0,
            r.skipped() == 0,
            r.entries().len() == 0,
            r.files().len() == 0,
    {
        let r = SearchScan {
            limit: (args.max_results as u128) + (args.offset as u128),
            offset: args.offset as u128,
            context: args.context_lines,
            mode: owned(args.output_mode.as_str()),
            count: 0,
            skipped: 0,
            entries: Vec::new(),
            files: Vec::new(),
        };
        assert(r.entries() =~= Seq::<Seq<char>>::empty());
        assert(r.files() =~= Seq::<(Seq<char>, nat)>::empty());
        r
    }

    /// Whether the search still counts hits (the limit is not reached).
    pub fn wants_more(&self) -> (r: bool)
        ensures
            r == (self.count() < self.limit()),
    {
        self.count < self.limit
    }

    /// Scans the lines of one file's text for hits, counting at most up to
    /// the limit. Hits at or before the offset are only counted; in the
    /// content mode the others produce output entries. A file with hits is
    /// recorded with its number of hits.
    pub fn scan_file(&mut self, rel: &str, content: &str, re: &SearchRegex)
        requires
            old(self).wf(),
        ensures
            final(self).wf(),
            scan_step(*old(self), *final(self), rel@, content@, re.source(), re.is_multiline()),
    {
        let ghost o = *self;
        let ghost pat = re.source();
        let ghost ml = re.is_multiline();
        let chars = to_chars(content);
        let lines = split_lines(chars.as_slice());
        let ghost ls = lines_of(content@);
        let content_mode = str_eq(self.mode.as_str(), "content");
        let ghost room: int = o.limit() - o.count();
        let mut hits: u128 = 0;
        let ghost mut taken: Seq<int> = Seq::empty();
        let ghost mut s: nat = 0;
        let mut i: usize = 0;
        proof {
            assert(ls.take(0) =~= Seq::<Seq<char>>::empty());
            assert(taken.skip(0) =~= taken);
        }
        while i < lines.len() && self.count < self.limit
            invariant
                views(lines@) == ls,
                ls == lines_of(content@),
                i <= ls.len(),
                pat == re.source(),
                ml == re.is_multiline(),
                content_mode == (o.mode() == "content"@),
                room == o.limit() - o.count(),
                o.wf(),
                taken == hit_lines(ls.take(i as int), pat, ml),
                taken.len() <= room,
                hits == taken.len(),
                s == skipped_in(o.count(), o.offset(), taken.len()),
                s <= taken.len(),
                self.count == o.count() + taken.len(),
                self.skipped == o.skipped() + s,
                self.limit == o.limit(),
                self.offset == o.offset(),
                self.context == o.context(),
                self.mode@ == o.mode(),
                self.files@ == o.files@,
                string_views(self.entries@) == o.entries() + (if content_mode {
                    entries_for(rel@, ls, taken.skip(s as int), o.context())
                } else {
                    Seq::empty()
                }),
            decreases ls.len() - i,
        {
            proof {
                lemma_hits_step(ls, pat, ml, i as int);
                assert(views(lines@)[i as int] == lines@[i as int]@);
            }
            let line = string_from_chars(lines[i].as_slice());
            if re.is_match(line.as_str()) {
                let ghost e0 = string_views(self.entries@);
                let ghost shown = taken.skip(s as int);
                hits = hits + 1;
                self.count = self.count + 1;
                proof {
                    taken = taken.push(i as int);
                }
                if self.count <= self.offset {
                    self.skipped = self.skipped + 1;
                    proof {
                        s = s + 1;
                        assert(taken.skip(s as int) =~= Seq::<int>::empty());
                        assert(shown =~= Seq::<int>::empty());
                    }
                } else {
                    proof {
                        assert(taken.skip(s as int) =~= shown.push(i as int));
                        assert(taken.skip(s as int).drop_last() =~= shown);
                    }
                    if content_mode {
                        push_hit_entries(&mut self.entries, rel, &lines, i, self.context);
                        proof {
                            assert(string_views(self.entries@) =~= e0 + hit_entries(rel@, ls, i as int, o.context()));
                            assert(o.entries() + entries_for(rel@, ls, taken.skip(s as int), o.context())
                                =~= o.entries() + entries_for(rel@, ls, shown, o.context()) + hit_entries(rel@, ls, i as int, o.context()));
                        }
                    }
                }
            }
            i = i + 1;
        }
        proof {
            lemma_hits_prefix(ls, pat, ml, i as int);
            let all = hit_lines(ls, pat, ml);
            if i == ls.len() {
                assert(ls.take(i as int) =~= ls);
            } else {
                assert(taken.len() == room);
                assert(all.take(room) == taken);
            }
            assert(first_hits(all, room) == taken);
        }
        if hits > 0 {
            let ghost f0 = self.files@;
            self.files.push((owned(rel), hits));
            assert(file_views(self.files@) =~= file_views(f0) + seq![(rel@, taken.len())]);
        } else {
            assert(file_views(self.files@) =~= file_views(self.files@) + Seq::<(Seq<char>, nat)>::empty());
        }
        if !content_mode {
            assert(string_views(self.entries@) =~= o.entries() + Seq::<Seq<char>>::empty());
        }
    }
}

fn context_line(lines: &Vec<Vec<char>>, i: usize, idx: usize) -> (r: String)
    requires
        i < lines@.len(),
    ensures
        r@ == context_entry(views(lines@), i as int, idx as int),
{
    let mut r = if i == idx {
        owned(">")
    } else {
        owned(" ")
    };
    push_decimal_wide(&mut r, (i as u128) + 1);
    push_str(&mut r, ": ");
    let t = string_from_chars(lines[i].as_slice());
    push_str(&mut r, t.as_str());
    proof {
        assert(views(lines@)[i as int] == lines@[i as int]@);
    }
    assert(r@ =~= context_entry(views(lines@), i as int, idx as int));
    r
}

fn push_hit_entries(out: &mut Vec<String>, rel: &str, lines: &Vec<Vec<char>>, idx: usize, ctx: u64)
    requires
        idx < lines@.len(),
    ensures
        string_views(final(out)@) == string_views(old(out)@) + hit_entries(rel@, views(lines@), idx as int, ctx as nat),
{
    let ghost ls = views(lines@);
    let ghost o = string_views(out@);
    proof {
        assert(ls[idx as int] == lines@[idx as int]@);
    }
    if ctx == 0 {
        let mut e = owned(rel);
        push_str(&mut e, ":");
        push_decimal_wide(&mut e, (idx as u128) + 1);
        push_str(&mut e, ":");
        let t = string_from_chars(lines[idx].as_slice());
        push_str(&mut e, t.as_str());
        out.push(e);
        assert(string_views(out@) =~= o + hit_entries(rel@, ls, idx as int, ctx as nat));
        return;
    }
    let start: usize = if (idx as u128) >= (ctx as u128) {
        ((idx as u128) - (ctx as u128)) as usize
    } else {
        0
    };
    let end: usize = if (idx as u128) + (ctx as u128) + 1 <= (lines.len() as u128) {
        ((idx as u128) + (ctx as u128) + 1) as usize
    } else {
        lines.len()
    };
    let mut head = owned(rel);
    push_str(&mut head, ":");
    out.push(head);
    let ghost o1 = string_views(out@);
    assert(o1 =~= o + seq![rel@ + ":"@]);
    let mut i: usize = start;
    while i < end
        invariant
            start <= i <= end <= lines@.len(),
            start as int == context_start(idx as int, ctx as int),
            end as int == context_end(idx as int, ctx as int, lines@.len() as int),
            ls == views(lines@),
            o1 == o + seq![rel@ + ":"@],
            string_views(out@) == o1 + Seq::new((i - start) as nat, |j: int| context_entry(ls, start + j, idx as int)),
        decreases end - i,
    {
        let ghost before = string_views(out@);
        let l = context_line(lines, i, idx);
        let ghost lv = l@;
        out.push(l);
        assert(string_views(out@) =~= before.push(lv));
        assert(Seq::new((i + 1 - start) as nat, |j: int| context_entry(ls, start + j, idx as int))
            =~= Seq::new((i - start) as nat, |j: int| context_entry(ls, start + j, idx as int)).push(lv));
        assert(string_views(out@) =~= o1 + Seq::new((i + 1 - start) as nat, |j: int| context_entry(ls, start + j, idx as int)));
        i = i + 1;
    }
    let blank = String::new();
    assert(blank@ =~= Seq::<char>::empty());
    let ghost before_blank = string_views(out@);
    out.push(blank);
    assert(string_views(out@) =~= before_blank.push(Seq::<char>::empty()));
    proof {
        let blk = Seq::new((end - start) as nat, |j: int| context_entry(ls, start + j, idx as int));
        assert(string_views(out@) =~= o + (seq![rel@ + ":"@] + blk + seq![Seq::<char>::empty()]));
    }
}

// ---------------------------------------------------------------------------
// Report
// ---------------------------------------------------------------------------

/// `path\n` for each file.
pub open spec fn files_listing(files: Seq<(Seq<char>, nat)>) -> Seq<char>
    decreases files.len(),
{
    if files.len() == 0 {
        Seq::empty()
    } else {
        files_listing(files.drop_last()) + files.last().0 + "\n"@
    }
}

/// `path: n\n` for each file.
pub open spec fn counts_listing(files: Seq<(Seq<char>, nat)>) -> Seq<char>
    decreases files.len(),
{
    if files.len() == 0 {
        Seq::empty()
    } else {
        counts_listing(files.drop_last()) + files.last().0 + ": "@ + decimal(files.last().1) + "\n"@
    }
}

/// The entries joined by newlines.
pub open spec fn joined_lines(entries: Seq<Seq<char>>) -> Seq<char>
    decreases entries.len(),
{
    if entries.len() == 0 {
        Seq::empty()
    } else if entries.len() == 1 {
        entries[0]
    } else {
        joined_lines(entries.drop_last()) + "\n"@ + entries.last()
    }
}

/// The text a search returns, by output mode.
pub open spec fn report_text(
    mode: Seq<char>,
    effective: nat,
    entries: Seq<Seq<char>>,
    files: Seq<(Seq<char>, nat)>,
    pattern: Seq<char>,
    shown_dir: Seq<char>,
) -> Seq<char> {
    if effective == 0 {
        "No matches found for pattern '"@ + pattern + "' in '"@ + shown_dir + "'"@
    } else if mode == "files"@ {
        "Found matches in "@ + decimal(files.len()) + " file(s):\n"@ + files_listing(files)
    } else if mode == "count"@ {
        "Match counts ("@ + decimal(effective) + " total in "@ + decimal(files.len()) + " files):\n"@
            + counts_listing(files)
    } else {
        "Found "@ + decimal(effective) + " match(es):\n"@ + joined_lines(entries)
    }
}

impl SearchScan {
    /// Scans one file's bytes: a file that looks binary or is not valid
    /// UTF-8 is passed over; any other is scanned as its text.
    pub fn scan_bytes(&mut self, rel: &str, bytes: &[u8], re: &SearchRegex)
        requires
            old(self).wf(),
        ensures
            final(self).wf(),
            binary_bytes(bytes@) || !valid_utf8(bytes@) ==> *final(self) == *old(self),
            !binary_bytes(bytes@) && valid_utf8(bytes@) ==> scan_step(
                *old(self),
                *final(self),
                rel@,
                decode_utf8(bytes@),
                re.source(),
                re.is_multiline(),
            ),
    {
        if looks_binary(bytes) {
            return;
        }
        match decode_utf8_strict(bytes) {
            Some(text) => self.scan_file(rel, text.as_str(), re),
            None => {},
        }
    }
}

impl SearchScan {
    /// The report of the search: the hits past the offset, as entries,
    /// files or counts by the output mode, or a no-match message naming the
    /// pattern and the directory as shown.
    pub fn report(&self, pattern: &str, shown_dir: &str) -> (r: String)
        requires
            self.wf(),
        ensures
            r@ == report_text(
                self.mode(),
                (self.count() - self.skipped()) as nat,
                self.entries(),
                self.files(),
                pattern@,
                shown_dir@,
            ),
    {
        let effective = self.count - self.skipped;
        let mut out = String::new();
        if effective == 0 {
            push_str(&mut out, "No matches found for pattern '");
            push_str(&mut out, pattern);
            push_str(&mut out, "' in '");
            push_str(&mut out, shown_dir);
            push_str(&mut out, "'");
            assert(out@ =~= report_text(self.mode(), 0, self.entries(), self.files(), pattern@, shown_dir@));
            return out;
        }
        let ghost fs = self.files();
        if str_eq(self.mode.as_str(), "files") {
            push_str(&mut out, "Found matches in ");
            push_decimal_wide(&mut out, self.files.len() as u128);
            push_str(&mut out, " file(s):\n");
            let ghost head = out@;
            let mut i: usize = 0;
            while i < self.files.len()
                invariant
                    i <= self.files@.len(),
                    fs == file_views(self.files@),
                    out@ == head + files_listing(fs.take(i as int)),
                decreases self.files@.len() - i,
            {
                push_str(&mut out, self.files[i].0.as_str());
                push_str(&mut out, "\n");
                proof {
                    assert(fs.take(i + 1).drop_last() =~= fs.take(i as int));
                }
                assert(out@ =~= head + files_listing(fs.take(i + 1)));
                i = i + 1;
            }
            assert(fs.take(i as int) =~= fs);
            assert(out@ =~= report_text(self.mode(), effective as nat, self.entries(), fs, pattern@, shown_dir@));
            return out;
        }
        if str_eq(self.mode.as_str(), "count") {
            push_str(&mut out, "Match counts (");
            push_decimal_wide(&mut out, effective);
            push_str(&mut out, " total in ");
            push_decimal_wide(&mut out, self.files.len() as u128);
            push_str(&mut out, " files):\n");
            let ghost head = out@;
            let mut i: usize = 0;
            while i < self.files.len()
                invariant
                    i <= self.files@.len(),
                    fs == file_views(self.files@),
                    out@ == head + counts_listing(fs.take(i as int)),
                decreases self.files@.len() - i,
            {
                push_str(&mut out, self.files[i].0.as_str());
                push_str(&mut out, ": ");
                push_decimal_wide(&mut out, self.files[i].1);
                push_str(&mut out, "\n");
                proof {
                    assert(fs.take(i + 1).drop_last() =~= fs.take(i as int));
                }
                assert(out@ =~= head + counts_listing(fs.take(i + 1)));
                i = i + 1;
            }
            assert(fs.take(i as int) =~= fs);
            assert(out@ =~= report_text(self.mode(), effective as nat, self.entries(), fs, pattern@, shown_dir@));
            return out;
        }
        push_str(&mut out, "Found ");
        push_decimal_wide(&mut out, effective);
        push_str(&mut out, " match(es):\n");
        let ghost head = out@;
        let ghost es = self.entries();
        let mut i: usize = 0;
        while i < self.entries.len()
            invariant
                i <= self.entries@.len(),
                es == string_views(self.entries@),
                out@ == head + joined_lines(es.take(i as int)),
            decreases self.entries@.len() - i,
        {
            if i > 0 {
                push_str(&mut out, "\n");
            }
            push_str(&mut out, self.entries[i].as_str());
            proof {
                assert(es.take(i + 1).drop_last() =~= es.take(i as int));
                if i == 0 {
                    assert(es.take(1) =~= seq![es[0]]);
                }
            }
            assert(out@ =~= head + joined_lines(es.take(i + 1)));
            i = i + 1;
        }
        assert(es.take(i as int) =~= es);
        out
    }
}

} // verus!
