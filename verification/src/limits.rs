//! Output truncation by line length, line count and total bytes.
use vstd::prelude::*;

use crate::text::{
    char_len_utf8, lemma_utf8_len_add, lemma_utf8_len_push, lines_of, push_char, push_str,
    split_lines, str_byte_len, to_chars, truncate_bytes, truncate_point, truncate_to_bytes,
    utf8_len, views,
};

verus! {

/// Configuration for output truncation limits.
#[derive(Debug, Clone, Copy)]
pub struct OutputLimits {
    /// Maximum total bytes.
    pub max_bytes: usize,
    /// Maximum number of lines.
    pub max_lines: usize,
    /// Maximum length of a single line in bytes.
    pub max_line_length: usize,
}

impl Default for OutputLimits {
    fn default() -> (r: Self)
        ensures
            r.max_bytes == 50_000,
            r.max_lines == 2_000,
            r.max_line_length == 2_000,
    {
        OutputLimits { max_bytes: 50_000, max_lines: 2_000, max_line_length: 2_000 }
    }
}

/// The output accumulated so far extended by one (cut) line; every line
/// but the first is preceded by a newline.
pub open spec fn with_line(acc: Seq<char>, line: Seq<char>, max_line: nat, first: bool) -> Seq<char> {
    let cut = truncate_bytes(line, max_line);
    (if first {
        acc
    } else {
        acc.push('\n')
    }) + cut + (if cut.len() < line.len() {
        " [line truncated]"@
    } else {
        Seq::empty()
    })
}

/// What `truncate` produces from `lines[idx..]` after `acc` was produced.
pub open spec fn limit_from(lines: Seq<Seq<char>>, idx: int, acc: Seq<char>, lim: OutputLimits) -> Seq<char>
    decreases lines.len() - idx,
{
    if idx >= lines.len() || idx < 0 {
        acc
    } else if idx >= lim.max_lines {
        acc + "\n[truncated: line limit reached]"@
    } else {
        let next = with_line(acc, lines[idx], lim.max_line_length as nat, idx == 0);
        if utf8_len(next) >= lim.max_bytes {
            truncate_bytes(next, lim.max_bytes as nat) + "\n[truncated: byte limit reached]"@
        } else {
            limit_from(lines, idx + 1, next, lim)
        }
    }
}

/// The result of `OutputLimits::truncate` on `output`.
pub open spec fn limited(output: Seq<char>, lim: OutputLimits) -> Seq<char> {
    limit_from(lines_of(output), 0, Seq::empty(), lim)
}

fn push_chars_counted(out: &mut String, v: &[char], start: usize, end: usize) -> (added: u128)
    requires
        start <= end <= v@.len(),
    ensures
        final(out)@ == old(out)@ + v@.subrange(start as int, end as int),
        added == utf8_len(v@.subrange(start as int, end as int)),
{
    let mut i = start;
    let mut added: u128 = 0;
    proof {
        assert(v@.subrange(start as int, start as int) =~= Seq::<char>::empty());
        assert(utf8_len(Seq::<char>::empty()) == 0);
    }
    while i < end
        invariant
            start <= i <= end <= v@.len(),
            out@ == old(out)@ + v@.subrange(start as int, i as int),
            added == utf8_len(v@.subrange(start as int, i as int)),
            added <= 4 * (i - start),
        decreases end - i,
    {
        let w = char_len_utf8(v[i]);
        push_char(out, v[i]);
        proof {
            assert(v@.subrange(start as int, i + 1) =~= v@.subrange(start as int, i as int).push(v@[i as int]));
            lemma_utf8_len_push(v@.subrange(start as int, i as int), v@[i as int]);
        }
        added = added + w as u128;
        i = i + 1;
    }
    added
}

impl OutputLimits {
    /// Truncate output according to the configured limits: line length,
    /// then line count, then total bytes.
    pub fn truncate(&self, output: &str) -> (r: String)
        ensures
            r@ == limited(output@, *self),
    {
        let chars = to_chars(output);
        let lines = split_lines(chars.as_slice());
        let mut result = String::new();
        let mut used: u128 = 0;
        let mut idx: usize = 0;
        proof {
            reveal_with_fuel(utf8_len, 1);
        }
        while idx < lines.len()
            invariant
                idx <= lines@.len(),
                views(lines@) == lines_of(output@),
                used == utf8_len(result@),
                used < self.max_bytes || idx == 0,
                used <= self.max_bytes,
                limit_from(views(lines@), idx as int, result@, *self) == limited(output@, *self),
            decreases lines@.len() - idx,
        {
            let ghost acc = result@;
            let ghost line = lines@[idx as int]@;
            assert(views(lines@)[idx as int] == line);
            if idx >= self.max_lines {
                push_str(&mut result, "\n[truncated: line limit reached]");
                return result;
            }
            let lv = &lines[idx];
            let k = truncate_point(lv.as_slice(), self.max_line_length);
            if idx > 0 {
                push_char(&mut result, '\n');
                proof {
                    lemma_utf8_len_push(acc, '\n');
                }
                used = used + 1;
            }
            let ghost before_cut = result@;
            let added = push_chars_counted(&mut result, lv.as_slice(), 0, k);
            proof {
                assert(lv@.subrange(0, k as int) =~= lv@.take(k as int));
                lemma_utf8_len_add(before_cut, lv@.take(k as int));
            }
            used = used + added;
            if k < lv.len() {
                let ghost before_mark = result@;
                push_str(&mut result, " [line truncated]");
                let mark_len = str_byte_len(" [line truncated]");
                proof {
                    lemma_utf8_len_add(before_mark, " [line truncated]"@);
                }
                used = used + mark_len as u128;
            } else {
                assert(result@ =~= result@ + Seq::<char>::empty());
            }
            assert(result@ =~= with_line(acc, line, self.max_line_length as nat, idx == 0));
            if used >= self.max_bytes as u128 {
                let cut = truncate_to_bytes(result.as_str(), self.max_bytes);
                let mut out = cut;
                push_str(&mut out, "\n[truncated: byte limit reached]");
                return out;
            }
            idx = idx + 1;
        }
        result
    }
}

} // verus!
