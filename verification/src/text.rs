//! Text primitives over `char` sequences with UTF-8 byte accounting.
use vstd::prelude::*;
use vstd::utf8::*;
use vstd::std_specs::iter::IteratorSpec;
use vstd::string::StringSliceAdditionalSpecFns;

verus! {

broadcast use vstd::string::group_string_axioms;

/// Number of bytes of the UTF-8 encoding of one character.
pub open spec fn char_width(c: char) -> nat {
    if (c as u32) < 0x80 {
        1
    } else if (c as u32) < 0x800 {
        2
    } else if (c as u32) < 0x10000 {
        3
    } else {
        4
    }
}

/// Number of bytes of the UTF-8 encoding of a character sequence.
pub open spec fn utf8_len(s: Seq<char>) -> nat
    decreases s.len(),
{
    if s.len() == 0 {
        0
    } else {
        utf8_len(s.drop_last()) + char_width(s.last())
    }
}

pub proof fn lemma_utf8_len_push(s: Seq<char>, c: char)
    ensures
        utf8_len(s.push(c)) == utf8_len(s) + char_width(c),
{
    assert(s.push(c).drop_last() =~= s);
}

pub proof fn lemma_utf8_len_add(a: Seq<char>, b: Seq<char>)
    ensures
        utf8_len(a + b) == utf8_len(a) + utf8_len(b),
    decreases b.len(),
{
    if b.len() == 0 {
        assert(a + b =~= a);
    } else {
        lemma_utf8_len_add(a, b.drop_last());
        assert((a + b).drop_last() =~= a + b.drop_last());
        assert((a + b).last() == b.last());
    }
}

pub proof fn lemma_utf8_len_single(c: char)
    ensures
        utf8_len(seq![c]) == char_width(c),
{
    reveal_with_fuel(utf8_len, 2);
    assert(seq![c].drop_last() =~= Seq::<char>::empty());
}

pub proof fn lemma_utf8_len_prefix(s: Seq<char>, i: int)
    requires
        0 <= i <= s.len(),
    ensures
        utf8_len(s.subrange(0, i)) <= utf8_len(s),
{
    lemma_utf8_len_add(s.subrange(0, i), s.subrange(i, s.len() as int));
    assert(s.subrange(0, i) + s.subrange(i, s.len() as int) =~= s);
}

pub proof fn lemma_utf8_len_at_least_len(s: Seq<char>)
    ensures
        utf8_len(s) >= s.len(),
    decreases s.len(),
{
    if s.len() > 0 {
        lemma_utf8_len_at_least_len(s.drop_last());
    }
}

proof fn lemma_encode_scalar_len(c: char)
    ensures
        encode_scalar(c as u32).len() == char_width(c),
{
    char_is_scalar(c);
}

/// The byte length that `str::len` reports equals `utf8_len` of the characters.
pub proof fn lemma_encode_len(s: Seq<char>)
    ensures
        encode_utf8(s).len() == utf8_len(s),
    decreases s.len(),
{
    if s.len() > 0 {
        lemma_encode_len(s.drop_first());
        lemma_encode_scalar_len(s[0]);
        lemma_utf8_len_add(seq![s[0]], s.drop_first());
        assert(seq![s[0]] + s.drop_first() =~= s);
        lemma_utf8_len_single(s[0]);
    }
}

/// Byte length of one character in UTF-8.
pub fn char_len_utf8(c: char) -> (w: usize)
    ensures
        w == char_width(c),
        1 <= w <= 4,
{
    let v = c as u32;
    if v < 0x80 {
        1
    } else if v < 0x800 {
        2
    } else if v < 0x10000 {
        3
    } else {
        4
    }
}

/// `str::len`: the number of bytes of the slice's UTF-8 encoding. The
/// vstd specification casts that count to `usize`; a slice's byte count
/// always fits, which this item states and the cast leaves open.
#[verifier::external_body]
fn std_str_len(s: &str) -> (n: usize)
    ensures
        n == s.spec_bytes().len(),
{
    s.len()
}

/// Byte length of a string slice, stated over its characters.
pub fn str_byte_len(s: &str) -> (n: usize)
    ensures
        n == utf8_len(s@),
{
    proof {
        lemma_encode_len(s@);
    }
    std_str_len(s)
}

/// Appends one character to a string.
#[verifier::external_body]
pub(crate) fn push_char(s: &mut String, c: char)
    ensures
        final(s)@ == old(s)@.push(c),
{
    s.push(c);
}

/// Appends a string slice to a string.
#[verifier::external_body]
pub(crate) fn push_str(s: &mut String, t: &str)
    ensures
        final(s)@ == old(s)@ + t@,
{
    s.push_str(t);
}

/// The characters of a string slice, in order.
pub fn to_chars(s: &str) -> (v: Vec<char>)
    ensures
        v@ == s@,
{
    let mut v: Vec<char> = Vec::new();
    for c in it: s.chars()
        invariant
            v@ == it.seq().take(it.index() as int),
    {
        v.push(c);
    }
    assert(v@ =~= s@);
    v
}

/// A string holding exactly the given characters.
pub fn string_from_chars(v: &[char]) -> (s: String)
    ensures
        s@ == v@,
{
    let mut s = String::new();
    let mut i: usize = 0;
    while i < v.len()
        invariant
            i <= v@.len(),
            s@ == v@.take(i as int),
        decreases v@.len() - i,
    {
        push_char(&mut s, v[i]);
        assert(v@.take(i + 1) =~= v@.take(i as int).push(v@[i as int]));
        i = i + 1;
    }
    assert(v@.take(v@.len() as int) =~= v@);
    s
}

/// A string holding the characters `v[start..end]`.
pub fn string_from_range(v: &[char], start: usize, end: usize) -> (s: String)
    requires
        start <= end <= v@.len(),
    ensures
        s@ == v@.subrange(start as int, end as int),
{
    let mut s = String::new();
    let mut i: usize = start;
    while i < end
        invariant
            start <= i <= end <= v@.len(),
            s@ == v@.subrange(start as int, i as int),
        decreases end - i,
    {
        push_char(&mut s, v[i]);
        assert(v@.subrange(start as int, i + 1) =~= v@.subrange(start as int, i as int).push(v@[i as int]));
        i = i + 1;
    }
    s
}

/// Copy of a string slice as an owned string.
pub fn owned(t: &str) -> (s: String)
    ensures
        s@ == t@,
{
    let mut s = String::new();
    push_str(&mut s, t);
    assert(s@ =~= t@);
    s
}

// ---------------------------------------------------------------------------
// Substring predicates
// ---------------------------------------------------------------------------

/// `n` occurs in `h` starting at character position `i`.
pub open spec fn occurs_at(h: Seq<char>, n: Seq<char>, i: int) -> bool {
    0 <= i && i + n.len() <= h.len() && h.subrange(i, i + n.len()) == n
}

/// `n` occurs somewhere in `h` (`str::contains`).
pub open spec fn contains_seq(h: Seq<char>, n: Seq<char>) -> bool {
    exists|i: int| occurs_at(h, n, i)
}

/// `h` begins with `n` (`str::starts_with`).
pub open spec fn starts_with_seq(h: Seq<char>, n: Seq<char>) -> bool {
    n.len() <= h.len() && h.take(n.len() as int) == n
}

/// `h` ends with `n` (`str::ends_with`).
pub open spec fn ends_with_seq(h: Seq<char>, n: Seq<char>) -> bool {
    n.len() <= h.len() && h.skip(h.len() - n.len()) == n
}

/// Whether `n` occurs in `h` at position `i`.
pub fn chars_occur_at(h: &[char], n: &[char], i: usize) -> (b: bool)
    ensures
        b == occurs_at(h@, n@, i as int),
{
    if i > h.len() || n.len() > h.len() - i {
        return false;
    }
    let mut j: usize = 0;
    while j < n.len()
        invariant
            i + n@.len() <= h@.len(),
            h@.len() <= usize::MAX,
            j <= n@.len(),
            forall|k: int| 0 <= k < j ==> h@[i + k] == n@[k],
        decreases n@.len() - j,
    {
        if h[i + j] != n[j] {
            assert(h@.subrange(i as int, i + n@.len())[j as int] != n@[j as int]);
            return false;
        }
        j = j + 1;
    }
    assert(h@.subrange(i as int, i + n@.len()) =~= n@);
    true
}

/// Position of the first occurrence of `n` in `h` at or after `from`.
pub fn chars_find_from(h: &[char], n: &[char], from: usize) -> (r: Option<usize>)
    ensures
        match r {
            Some(i) => from <= i && occurs_at(h@, n@, i as int) && forall|k: int|
                from <= k < i ==> !occurs_at(h@, n@, k),
            None => forall|k: int| from <= k ==> !occurs_at(h@, n@, k),
        },
{
    if from > h.len() {
        return None;
    }
    let mut i = from;
    while i < h.len()
        invariant
            from <= i <= h@.len(),
            forall|k: int| from <= k < i ==> !occurs_at(h@, n@, k),
        decreases h@.len() - i,
    {
        if chars_occur_at(h, n, i) {
            return Some(i);
        }
        i = i + 1;
    }
    if chars_occur_at(h, n, i) {
        return Some(i);
    }
    None
}

/// `str::contains` over characters.
pub fn chars_contain(h: &[char], n: &[char]) -> (b: bool)
    ensures
        b == contains_seq(h@, n@),
{
    match chars_find_from(h, n, 0) {
        Some(_) => true,
        None => false,
    }
}

/// `str::starts_with` over characters.
pub fn chars_start_with(h: &[char], n: &[char]) -> (b: bool)
    ensures
        b == starts_with_seq(h@, n@),
{
    let b = chars_occur_at(h, n, 0);
    proof {
        if b {
            assert(h@.take(n@.len() as int) =~= h@.subrange(0, n@.len() as int));
        } else if n@.len() <= h@.len() {
            assert(h@.take(n@.len() as int) =~= h@.subrange(0, n@.len() as int));
        }
    }
    b
}

/// `str::ends_with` over characters.
pub fn chars_end_with(h: &[char], n: &[char]) -> (b: bool)
    ensures
        b == ends_with_seq(h@, n@),
{
    if n.len() > h.len() {
        return false;
    }
    let b = chars_occur_at(h, n, h.len() - n.len());
    assert(h@.skip(h@.len() - n@.len()) =~= h@.subrange(h@.len() - n@.len(), h@.len() as int));
    b
}

/// `str::contains` on string slices.
pub fn str_contains(h: &str, n: &str) -> (b: bool)
    ensures
        b == contains_seq(h@, n@),
{
    let hv = to_chars(h);
    let nv = to_chars(n);
    chars_contain(hv.as_slice(), nv.as_slice())
}

/// `str::starts_with` on string slices.
pub fn str_starts_with(h: &str, n: &str) -> (b: bool)
    ensures
        b == starts_with_seq(h@, n@),
{
    let hv = to_chars(h);
    let nv = to_chars(n);
    chars_start_with(hv.as_slice(), nv.as_slice())
}

/// String equality.
pub fn str_eq(a: &str, b: &str) -> (r: bool)
    ensures
        r == (a@ == b@),
{
    let av = to_chars(a);
    let bv = to_chars(b);
    if av.len() != bv.len() {
        return false;
    }
    let r = chars_occur_at(av.as_slice(), bv.as_slice(), 0);
    proof {
        assert(av@.subrange(0, bv@.len() as int) =~= av@);
    }
    r
}

/// Views of a list of string slices.
pub open spec fn strs_view(v: Seq<&str>) -> Seq<Seq<char>> {
    v.map_values(|s: &str| s@)
}

/// Whether `s` equals one of the strings of `list`.
pub fn str_in(list: &Vec<&str>, s: &str) -> (r: bool)
    ensures
        r == strs_view(list@).contains(s@),
{
    let ghost want = strs_view(list@);
    let mut i: usize = 0;
    while i < list.len()
        invariant
            i <= list@.len() == want.len(),
            want == strs_view(list@),
            forall|k: int| 0 <= k < i ==> want[k] != s@,
        decreases list@.len() - i,
    {
        assert(want[i as int] == list@[i as int]@);
        if str_eq(list[i], s) {
            assert(want.contains(s@));
            return true;
        }
        i = i + 1;
    }
    assert(!want.contains(s@)) by {
        if want.contains(s@) {
            let k = choose|k: int| 0 <= k < want.len() && want[k] == s@;
            assert(want[k] != s@);
        }
    }
    false
}

// ---------------------------------------------------------------------------
// Byte-bounded truncation
// ---------------------------------------------------------------------------

/// The longest prefix of `s` whose UTF-8 encoding has at most `max` bytes,
/// i.e. `s` cut at the largest character boundary not beyond byte `max`.
pub open spec fn truncate_bytes(s: Seq<char>, max: nat) -> Seq<char>
    decreases s.len(),
{
    if utf8_len(s) <= max || s.len() == 0 {
        s
    } else {
        truncate_bytes(s.drop_last(), max)
    }
}

proof fn lemma_utf8_len_take_mono(s: Seq<char>, i: int, j: int)
    requires
        0 <= i <= j <= s.len(),
    ensures
        utf8_len(s.take(i)) <= utf8_len(s.take(j)),
{
    lemma_utf8_len_prefix(s.take(j), i);
    assert(s.take(j).subrange(0, i) =~= s.take(i));
}

proof fn lemma_truncate_bytes_is_take(s: Seq<char>, max: nat, k: int)
    requires
        0 <= k <= s.len(),
        utf8_len(s.take(k)) <= max,
        k < s.len() ==> utf8_len(s.take(k + 1)) > max,
    ensures
        truncate_bytes(s, max) == s.take(k),
    decreases s.len(),
{
    if utf8_len(s) <= max || s.len() == 0 {
        if k < s.len() {
            lemma_utf8_len_take_mono(s, k + 1, s.len() as int);
            assert(s.take(s.len() as int) =~= s);
        }
        assert(s.take(k) =~= s);
    } else {
        assert(s.take(s.len() as int) =~= s);
        assert(k < s.len());
        let t = s.drop_last();
        assert(t.take(k) =~= s.take(k));
        if k + 1 < s.len() {
            assert(t.take(k + 1) =~= s.take(k + 1));
        }
        lemma_truncate_bytes_is_take(t, max, k);
    }
}

pub proof fn lemma_truncate_bytes_fits(s: Seq<char>, max: nat)
    ensures
        utf8_len(truncate_bytes(s, max)) <= max || truncate_bytes(s, max).len() == 0,
        truncate_bytes(s, max).len() <= s.len(),
        truncate_bytes(s, max) == s.take(truncate_bytes(s, max).len() as int),
    decreases s.len(),
{
    if utf8_len(s) <= max || s.len() == 0 {
        assert(s.take(s.len() as int) =~= s);
    } else {
        lemma_truncate_bytes_fits(s.drop_last(), max);
        let t = truncate_bytes(s.drop_last(), max);
        assert(s.take(t.len() as int) =~= s.drop_last().take(t.len() as int));
    }
}

/// Number of leading characters of `s` kept by `truncate_bytes(s, max)`.
pub fn truncate_point(s: &[char], max_bytes: usize) -> (k: usize)
    ensures
        k <= s@.len(),
        truncate_bytes(s@, max_bytes as nat) == s@.take(k as int),
        utf8_len(s@.take(k as int)) <= max_bytes,
{
    let mut k: usize = 0;
    let mut used: usize = 0;
    while k < s.len()
        invariant
            k <= s@.len(),
            used == utf8_len(s@.take(k as int)),
            used <= max_bytes,
        decreases s@.len() - k,
    {
        let w = char_len_utf8(s[k]);
        proof {
            assert(s@.take(k + 1) =~= s@.take(k as int).push(s@[k as int]));
            lemma_utf8_len_push(s@.take(k as int), s@[k as int]);
        }
        if w > max_bytes - used {
            proof {
                lemma_truncate_bytes_is_take(s@, max_bytes as nat, k as int);
            }
            return k;
        }
        used = used + w;
        k = k + 1;
    }
    proof {
        reveal_with_fuel(utf8_len, 1);
        lemma_truncate_bytes_is_take(s@, max_bytes as nat, k as int);
    }
    k
}

/// Cut `s` at the largest character boundary that is at most `max_bytes`.
pub fn truncate_to_bytes(s: &str, max_bytes: usize) -> (r: String)
    ensures
        r@ == truncate_bytes(s@, max_bytes as nat),
{
    let v = to_chars(s);
    let k = truncate_point(v.as_slice(), max_bytes);
    string_from_range(v.as_slice(), 0, k)
}

// ---------------------------------------------------------------------------
// Lines (`str::lines`)
// ---------------------------------------------------------------------------

/// Drops one trailing carriage return.
pub open spec fn strip_cr(s: Seq<char>) -> Seq<char> {
    if s.len() > 0 && s.last() == '\r' {
        s.drop_last()
    } else {
        s
    }
}

/// Lines of `s`, where `cur` holds the part of the current line read so far.
/// A line ends at `'\n'`; a `'\r'` just before it is dropped; a final line
/// ending is optional and an unterminated last line is kept as it is.
pub open spec fn lines_acc(s: Seq<char>, cur: Seq<char>) -> Seq<Seq<char>>
    decreases s.len(),
{
    if s.len() == 0 {
        if cur.len() == 0 {
            Seq::empty()
        } else {
            seq![cur]
        }
    } else if s[0] == '\n' {
        seq![strip_cr(cur)] + lines_acc(s.drop_first(), Seq::empty())
    } else {
        lines_acc(s.drop_first(), cur.push(s[0]))
    }
}

/// The lines of `s`, as `str::lines` yields them.
pub open spec fn lines_of(s: Seq<char>) -> Seq<Seq<char>> {
    lines_acc(s, Seq::empty())
}

/// Views of a vector of character vectors.
pub open spec fn views(v: Seq<Vec<char>>) -> Seq<Seq<char>> {
    v.map_values(|l: Vec<char>| l@)
}

/// The lines of `s` (`str::lines`).
pub fn split_lines(s: &[char]) -> (r: Vec<Vec<char>>)
    ensures
        views(r@) == lines_of(s@),
{
    let mut r: Vec<Vec<char>> = Vec::new();
    let mut cur: Vec<char> = Vec::new();
    let mut i: usize = 0;
    assert(s@.skip(0) =~= s@);
    assert(views(r@) + lines_acc(s@, cur@) =~= lines_acc(s@, Seq::empty()));
    while i < s.len()
        invariant
            i <= s@.len(),
            views(r@) + lines_acc(s@.skip(i as int), cur@) == lines_of(s@),
        decreases s@.len() - i,
    {
        let ghost rest = s@.skip(i as int);
        let ghost r0 = views(r@);
        let ghost cur0 = cur@;
        assert(rest.drop_first() =~= s@.skip(i + 1));
        let c = s[i];
        if c == '\n' {
            let mut line = cur;
            if line.len() > 0 && line[line.len() - 1] == '\r' {
                line.pop();
            }
            assert(line@ =~= strip_cr(cur@));
            r.push(line);
            cur = Vec::new();
            assert(views(r@) =~= r0.push(strip_cr(cur0)));
            assert(views(r@) + lines_acc(s@.skip(i + 1), cur@) =~= r0 + (seq![strip_cr(cur0)]
                + lines_acc(rest.drop_first(), Seq::empty())));
        } else {
            cur.push(c);
        }
        i = i + 1;
    }
    assert(s@.skip(i as int) =~= Seq::<char>::empty());
    if cur.len() > 0 {
        let ghost r0 = views(r@);
        let ghost cur0 = cur@;
        r.push(cur);
        assert(views(r@) =~= r0.push(cur0));
    } else {
        assert(views(r@) + Seq::<Seq<char>>::empty() =~= views(r@));
    }
    r
}

// ---------------------------------------------------------------------------
// Whitespace (`char::is_whitespace`, `str::trim`, `str::split_whitespace`)
// ---------------------------------------------------------------------------

/// Unicode `White_Space`, the property `char::is_whitespace` tests.
pub open spec fn is_ws(c: char) -> bool {
    let v = c as u32;
    (0x09 <= v <= 0x0D) || v == 0x20 || v == 0x85 || v == 0xA0 || v == 0x1680 || (0x2000 <= v
        <= 0x200A) || v == 0x2028 || v == 0x2029 || v == 0x202F || v == 0x205F || v == 0x3000
}

pub fn is_whitespace(c: char) -> (b: bool)
    ensures
        b == is_ws(c),
{
    let v = c as u32;
    (0x09 <= v && v <= 0x0D) || v == 0x20 || v == 0x85 || v == 0xA0 || v == 0x1680 || (0x2000 <= v
        && v <= 0x200A) || v == 0x2028 || v == 0x2029 || v == 0x202F || v == 0x205F || v == 0x3000
}

pub open spec fn trim_start(s: Seq<char>) -> Seq<char>
    decreases s.len(),
{
    if s.len() > 0 && is_ws(s[0]) {
        trim_start(s.drop_first())
    } else {
        s
    }
}

pub open spec fn trim_end(s: Seq<char>) -> Seq<char>
    decreases s.len(),
{
    if s.len() > 0 && is_ws(s.last()) {
        trim_end(s.drop_last())
    } else {
        s
    }
}

/// `str::trim`: whitespace removed from both ends.
pub open spec fn trim(s: Seq<char>) -> Seq<char> {
    trim_end(trim_start(s))
}

proof fn lemma_trim_start_skip(s: Seq<char>, a: int)
    requires
        0 <= a <= s.len(),
        forall|k: int| 0 <= k < a ==> is_ws(#[trigger] s[k]),
        a < s.len() ==> !is_ws(s[a]),
    ensures
        trim_start(s) == s.skip(a),
    decreases a,
{
    if a == 0 {
        assert(s.skip(0) =~= s);
    } else {
        let t = s.drop_first();
        assert forall|k: int| 0 <= k < a - 1 implies is_ws(#[trigger] t[k]) by {
            assert(t[k] == s[k + 1]);
        }
        if a - 1 < t.len() {
            assert(t[a - 1] == s[a]);
        }
        lemma_trim_start_skip(t, a - 1);
        assert(t.skip(a - 1) =~= s.skip(a));
    }
}

proof fn lemma_trim_end_take(s: Seq<char>, b: int)
    requires
        0 <= b <= s.len(),
        forall|k: int| b <= k < s.len() ==> is_ws(#[trigger] s[k]),
        b > 0 ==> !is_ws(s[b - 1]),
    ensures
        trim_end(s) == s.take(b),
    decreases s.len() - b,
{
    if b == s.len() {
        assert(s.take(b) =~= s);
    } else {
        let t = s.drop_last();
        assert forall|k: int| b <= k < t.len() implies is_ws(#[trigger] t[k]) by {
            assert(t[k] == s[k]);
        }
        if b > 0 {
            assert(t[b - 1] == s[b - 1]);
        }
        lemma_trim_end_take(t, b);
        assert(t.take(b) =~= s.take(b));
    }
}

/// `str::trim` over characters.
pub fn trim_chars(s: &[char]) -> (r: Vec<char>)
    ensures
        r@ == trim(s@),
{
    let mut a: usize = 0;
    while a < s.len() && is_whitespace(s[a])
        invariant
            a <= s@.len(),
            forall|k: int| 0 <= k < a ==> is_ws(#[trigger] s@[k]),
        decreases s@.len() - a,
    {
        a = a + 1;
    }
    proof {
        lemma_trim_start_skip(s@, a as int);
    }
    let mut b: usize = s.len();
    while b > a && is_whitespace(s[b - 1])
        invariant
            a <= b <= s@.len(),
            forall|k: int| b <= k < s@.len() ==> is_ws(#[trigger] s@[k]),
        decreases b,
    {
        b = b - 1;
    }
    let ghost t = s@.skip(a as int);
    proof {
        assert forall|k: int| b - a <= k < t.len() implies is_ws(#[trigger] t[k]) by {
            assert(t[k] == s@[k + a]);
        }
        if b - a > 0 {
            assert(t[b - a - 1] == s@[b - 1]);
        }
        lemma_trim_end_take(t, b - a);
        assert(t.take(b - a) =~= s@.subrange(a as int, b as int));
    }
    let mut r: Vec<char> = Vec::new();
    let mut i = a;
    while i < b
        invariant
            a <= i <= b <= s@.len(),
            r@ == s@.subrange(a as int, i as int),
        decreases b - i,
    {
        r.push(s[i]);
        assert(s@.subrange(a as int, i + 1) =~= s@.subrange(a as int, i as int).push(s@[i as int]));
        i = i + 1;
    }
    r
}

/// Words of `s`, where `cur` holds the part of the current word read so far.
pub open spec fn words_acc(s: Seq<char>, cur: Seq<char>) -> Seq<Seq<char>>
    decreases s.len(),
{
    if s.len() == 0 {
        if cur.len() == 0 {
            Seq::empty()
        } else {
            seq![cur]
        }
    } else if is_ws(s[0]) {
        (if cur.len() == 0 {
            Seq::empty()
        } else {
            seq![cur]
        }) + words_acc(s.drop_first(), Seq::empty())
    } else {
        words_acc(s.drop_first(), cur.push(s[0]))
    }
}

/// `str::split_whitespace`: the maximal runs of non-whitespace characters.
pub open spec fn words(s: Seq<char>) -> Seq<Seq<char>> {
    words_acc(s, Seq::empty())
}

pub fn split_words(s: &[char]) -> (r: Vec<Vec<char>>)
    ensures
        views(r@) == words(s@),
{
    let mut r: Vec<Vec<char>> = Vec::new();
    let mut cur: Vec<char> = Vec::new();
    let mut i: usize = 0;
    assert(s@.skip(0) =~= s@);
    assert(views(r@) + words_acc(s@, cur@) =~= words_acc(s@, Seq::empty()));
    while i < s.len()
        invariant
            i <= s@.len(),
            views(r@) + words_acc(s@.skip(i as int), cur@) == words(s@),
        decreases s@.len() - i,
    {
        let ghost rest = s@.skip(i as int);
        let ghost r0 = views(r@);
        let ghost cur0 = cur@;
        assert(rest.drop_first() =~= s@.skip(i + 1));
        let c = s[i];
        if is_whitespace(c) {
            if cur.len() > 0 {
                r.push(cur);
                cur = Vec::new();
                assert(views(r@) =~= r0.push(cur0));
                assert(views(r@) + words_acc(s@.skip(i + 1), cur@) =~= r0 + (seq![cur0]
                    + words_acc(rest.drop_first(), Seq::empty())));
            } else {
                assert(cur0 =~= Seq::<char>::empty());
                assert(r0 + words_acc(s@.skip(i + 1), cur@) =~= r0 + (Seq::<Seq<char>>::empty()
                    + words_acc(rest.drop_first(), Seq::empty())));
            }
        } else {
            cur.push(c);
        }
        i = i + 1;
    }
    assert(s@.skip(i as int) =~= Seq::<char>::empty());
    if cur.len() > 0 {
        let ghost r0 = views(r@);
        let ghost cur0 = cur@;
        r.push(cur);
        assert(views(r@) =~= r0.push(cur0));
    } else {
        assert(views(r@) + Seq::<Seq<char>>::empty() =~= views(r@));
    }
    r
}

// ---------------------------------------------------------------------------
// Decimal rendering of integers (`Display` for integer types)
// ---------------------------------------------------------------------------

pub open spec fn digit_char(d: nat) -> char {
    if d == 0 {
        '0'
    } else if d == 1 {
        '1'
    } else if d == 2 {
        '2'
    } else if d == 3 {
        '3'
    } else if d == 4 {
        '4'
    } else if d == 5 {
        '5'
    } else if d == 6 {
        '6'
    } else if d == 7 {
        '7'
    } else if d == 8 {
        '8'
    } else {
        '9'
    }
}

/// Decimal digits of `n`, without leading zeros.
pub open spec fn decimal(n: nat) -> Seq<char>
    decreases n,
{
    if n < 10 {
        seq![digit_char(n)]
    } else {
        decimal(n / 10).push(digit_char(n % 10))
    }
}

/// Decimal rendering of a signed integer.
pub open spec fn signed_decimal(n: int) -> Seq<char> {
    if n < 0 {
        seq!['-'] + decimal((-n) as nat)
    } else {
        decimal(n as nat)
    }
}

fn digit(d: u64) -> (c: char)
    requires
        d < 10,
    ensures
        c == digit_char(d as nat),
{
    if d == 0 {
        '0'
    } else if d == 1 {
        '1'
    } else if d == 2 {
        '2'
    } else if d == 3 {
        '3'
    } else if d == 4 {
        '4'
    } else if d == 5 {
        '5'
    } else if d == 6 {
        '6'
    } else if d == 7 {
        '7'
    } else if d == 8 {
        '8'
    } else {
        '9'
    }
}

/// Appends the decimal digits of `n`.
pub fn push_decimal(out: &mut String, n: u64)
    ensures
        final(out)@ == old(out)@ + decimal(n as nat),
    decreases n,
{
    if n >= 10 {
        push_decimal(out, n / 10);
        push_char(out, digit(n % 10));
        assert(final(out)@ =~= old(out)@ + decimal(n as nat));
    } else {
        push_char(out, digit(n));
        assert(final(out)@ =~= old(out)@ + decimal(n as nat));
    }
}

/// Appends the decimal digits of a 128-bit count.
pub fn push_decimal_wide(out: &mut String, n: u128)
    ensures
        final(out)@ == old(out)@ + decimal(n as nat),
    decreases n,
{
    if n >= 10 {
        push_decimal_wide(out, n / 10);
        push_char(out, digit((n % 10) as u64));
        assert(final(out)@ =~= old(out)@ + decimal(n as nat));
    } else {
        push_char(out, digit(n as u64));
        assert(final(out)@ =~= old(out)@ + decimal(n as nat));
    }
}

/// Appends the decimal rendering of a signed integer.
pub fn push_signed_decimal(out: &mut String, n: i64)
    ensures
        final(out)@ == old(out)@ + signed_decimal(n as int),
{
    if n < 0 {
        push_char(out, '-');
        let m: u64 = if n == i64::MIN {
            9223372036854775808u64
        } else {
            (-n) as u64
        };
        push_decimal(out, m);
        assert(final(out)@ =~= old(out)@ + signed_decimal(n as int));
    } else {
        push_decimal(out, n as u64);
    }
}

// ---------------------------------------------------------------------------
// Case mapping
// ---------------------------------------------------------------------------

/// ASCII lowercase of one character; other characters are kept.
pub open spec fn ascii_lower(c: char) -> char {
    if 'A' <= c <= 'Z' {
        ((c as u32) + 32) as char
    } else {
        c
    }
}

/// `str::eq_ignore_ascii_case`.
pub open spec fn eq_ascii_nocase(a: Seq<char>, b: Seq<char>) -> bool {
    a.len() == b.len() && forall|i: int| 0 <= i < a.len() ==> ascii_lower(#[trigger] a[i]) == ascii_lower(b[i])
}

fn lower_ascii_char(c: char) -> (r: char)
    ensures
        r == ascii_lower(c),
{
    if 'A' <= c && c <= 'Z' {
        let v: u8 = (c as u8) + 32;
        v as char
    } else {
        c
    }
}

/// Compares two strings, ignoring ASCII case.
pub fn eq_ignore_ascii_case(a: &str, b: &str) -> (r: bool)
    ensures
        r == eq_ascii_nocase(a@, b@),
{
    let av = to_chars(a);
    let bv = to_chars(b);
    if av.len() != bv.len() {
        return false;
    }
    let mut i: usize = 0;
    while i < av.len()
        invariant
            i <= av@.len() == bv@.len(),
            av@ == a@,
            bv@ == b@,
            forall|k: int| 0 <= k < i ==> ascii_lower(#[trigger] av@[k]) == ascii_lower(bv@[k]),
        decreases av@.len() - i,
    {
        if lower_ascii_char(av[i]) != lower_ascii_char(bv[i]) {
            return false;
        }
        i = i + 1;
    }
    true
}

/// What `str::to_lowercase` returns for a string: each character mapped by
/// the Unicode lowercase mapping.
pub uninterp spec fn lowercase(s: Seq<char>) -> Seq<char>;

/// Every character of `s` is ASCII.
pub open spec fn all_ascii(s: Seq<char>) -> bool {
    forall|i: int| 0 <= i < s.len() ==> (#[trigger] s[i] as u32) < 128
}

/// `s` with each ASCII capital letter replaced by its small letter.
pub open spec fn ascii_lowercase(s: Seq<char>) -> Seq<char> {
    s.map_values(|c: char| ascii_lower(c))
}

/// `str::to_lowercase`. Its result is named `lowercase`; the Unicode case
/// tables that define it are not restated here. On ASCII text it is the
/// ASCII lowercasing of each character, as std documents (the lowercase
/// mapping of an ASCII character is its ASCII lowercase form).
#[verifier::external_body]
pub(crate) fn to_lowercase(s: &str) -> (r: String)
    ensures
        r@ == lowercase(s@),
        all_ascii(s@) ==> r@ == ascii_lowercase(s@),
{
    s.to_lowercase()
}

} // verus!
