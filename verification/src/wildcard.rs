//! Wildcard matching with `*` (any run of characters) and `?` (one
//! character).
use vstd::prelude::*;

verus! {

pub open spec fn is_star(c: char) -> bool {
    c == '*'
}

pub open spec fn is_question(c: char) -> bool {
    c == '?'
}

/// Wildcard semantics: `*` matches any (possibly empty) run of characters,
/// `?` matches exactly one character, every other character matches only
/// itself.
pub open spec fn wild(p: Seq<char>, t: Seq<char>) -> bool
    decreases p.len(), t.len(),
{
    if p.len() == 0 {
        t.len() == 0
    } else if is_star(p[0]) {
        wild(p.drop_first(), t) || (t.len() > 0 && wild(p, t.drop_first()))
    } else {
        t.len() > 0 && (is_question(p[0]) || p[0] == t[0]) && wild(p.drop_first(), t.drop_first())
    }
}

/// `wild` on the suffixes starting at `i` and `j`.
pub open spec fn wild_at(p: Seq<char>, t: Seq<char>, i: int, j: int) -> bool {
    wild(p.skip(i), t.skip(j))
}

/// A pattern character other than `*` that accepts the text character.
spec fn compat(a: char, b: char) -> bool {
    !is_star(a) && (is_question(a) || a == b)
}

proof fn lemma_unfold(p: Seq<char>, t: Seq<char>, i: int, j: int)
    requires
        0 <= i <= p.len(),
        0 <= j <= t.len(),
    ensures
        i == p.len() ==> (wild_at(p, t, i, j) == (j == t.len())),
        i < p.len() && is_star(p[i]) ==> (wild_at(p, t, i, j) == (wild_at(p, t, i + 1, j) || (j
            < t.len() && wild_at(p, t, i, j + 1)))),
        i < p.len() && !is_star(p[i]) ==> (wild_at(p, t, i, j) == (j < t.len() && compat(
            p[i],
            t[j],
        ) && wild_at(p, t, i + 1, j + 1))),
{
    let ps = p.skip(i);
    let ts = t.skip(j);
    if i < p.len() {
        assert(ps.drop_first() =~= p.skip(i + 1));
        assert(ps[0] == p[i]);
    }
    if j < t.len() {
        assert(ts.drop_first() =~= t.skip(j + 1));
        assert(ts[0] == t[j]);
    }
}

proof fn lemma_star_absorb(p: Seq<char>, t: Seq<char>, i: int, j: int, k: int)
    requires
        0 <= i < p.len(),
        is_star(p[i]),
        0 <= j <= k <= t.len(),
        wild_at(p, t, i, k),
    ensures
        wild_at(p, t, i, j),
    decreases k - j,
{
    if j < k {
        lemma_star_absorb(p, t, i, j + 1, k);
        lemma_unfold(p, t, i, j);
    }
}

proof fn lemma_star_next(p: Seq<char>, t: Seq<char>, i: int, j: int, k: int)
    requires
        0 <= i < p.len(),
        is_star(p[i]),
        0 <= j <= k <= t.len(),
        wild_at(p, t, i + 1, k),
    ensures
        wild_at(p, t, i, j),
{
    lemma_unfold(p, t, i, k);
    lemma_star_absorb(p, t, i, j, k);
}

proof fn lemma_star_exists(p: Seq<char>, t: Seq<char>, i: int, j: int)
    requires
        0 <= i < p.len(),
        is_star(p[i]),
        0 <= j <= t.len(),
        wild_at(p, t, i, j),
    ensures
        exists|k: int| j <= k <= t.len() && #[trigger] wild_at(p, t, i + 1, k),
    decreases t.len() - j,
{
    lemma_unfold(p, t, i, j);
    if wild_at(p, t, i + 1, j) {
    } else {
        lemma_star_exists(p, t, i, j + 1);
    }
}

proof fn lemma_run_back(p: Seq<char>, t: Seq<char>, a: int, b: int, len: int)
    requires
        0 <= a,
        0 <= b,
        0 <= len,
        a + len <= p.len(),
        b + len <= t.len(),
        forall|m: int| 0 <= m < len ==> compat(#[trigger] p[a + m], t[b + m]),
        wild_at(p, t, a + len, b + len),
    ensures
        wild_at(p, t, a, b),
    decreases len,
{
    if len > 0 {
        assert forall|m: int| 0 <= m < len - 1 implies compat(#[trigger] p[(a + 1) + m], t[(b + 1) + m]) by {
            assert(compat(p[a + (m + 1)], t[b + (m + 1)]));
        }
        lemma_run_back(p, t, a + 1, b + 1, len - 1);
        assert(compat(p[a + 0], t[b + 0]));
        lemma_unfold(p, t, a, b);
    }
}

proof fn lemma_run_forward(p: Seq<char>, t: Seq<char>, a: int, b: int, len: int)
    requires
        0 <= a,
        0 <= b <= t.len(),
        0 <= len,
        a + len <= p.len(),
        forall|m: int| 0 <= m < len ==> !is_star(#[trigger] p[a + m]),
        wild_at(p, t, a, b),
    ensures
        b + len <= t.len(),
        wild_at(p, t, a + len, b + len),
        forall|m: int| 0 <= m < len ==> compat(#[trigger] p[a + m], t[b + m]),
    decreases len,
{
    if len > 0 {
        assert(!is_star(p[a + 0]));
        lemma_unfold(p, t, a, b);
        assert forall|m: int| 0 <= m < len - 1 implies !is_star(#[trigger] p[(a + 1) + m]) by {
            assert(!is_star(p[a + (m + 1)]));
        }
        lemma_run_forward(p, t, a + 1, b + 1, len - 1);
        assert forall|m: int| 0 <= m < len implies compat(#[trigger] p[a + m], t[b + m]) by {
            if m > 0 {
                assert(compat(p[(a + 1) + (m - 1)], t[(b + 1) + (m - 1)]));
            }
        }
    }
}

/// The run `p[a..a+len]` holds no `*` and accepts `t[b..b+len]`.
spec fn run_ok(p: Seq<char>, t: Seq<char>, a: int, b: int, len: int) -> bool {
    &&& 0 <= a && 0 <= b && 0 <= len
    &&& a + len <= p.len()
    &&& b + len <= t.len()
    &&& forall|m: int| 0 <= m < len ==> compat(#[trigger] p[a + m], t[b + m])
}

/// Wildcard matching of `text` against `pattern`, over characters: `*`
/// matches any run of characters, `?` one character. Greedy: on a mismatch
/// the last `*` of the pattern takes one more character of the text.
pub fn glob_matches_chars(pattern: &[char], text: &[char]) -> (r: bool)
    ensures
        r == wild(pattern@, text@),
{
    let ghost p = pattern@;
    let ghost t = text@;
    let plen = pattern.len();
    let tlen = text.len();
    let mut pi: usize = 0;
    let mut ti: usize = 0;
    let mut star_pi: usize = usize::MAX;
    let mut star_ti: usize = 0;
    proof {
        assert(p.skip(0) =~= p);
        assert(t.skip(0) =~= t);
    }
    while ti < tlen
        invariant
            plen == p.len(),
            tlen == t.len(),
            p == pattern@,
            t == text@,
            pi <= plen,
            ti <= tlen,
            star_pi == usize::MAX ==> pi == ti && run_ok(p, t, 0, 0, pi as int),
            star_pi == usize::MAX ==> (wild_at(p, t, 0, 0) ==> wild_at(p, t, pi as int, ti as int)),
            star_pi != usize::MAX ==> {
                &&& star_pi < pi
                &&& is_star(p[star_pi as int])
                &&& star_ti <= ti
                &&& pi - star_pi - 1 == ti - star_ti
                &&& run_ok(p, t, star_pi + 1, star_ti as int, ti - star_ti)
                &&& (wild_at(p, t, star_pi as int, star_ti as int) ==> wild_at(p, t, 0, 0))
                &&& (wild_at(p, t, 0, 0) ==> wild_at(p, t, star_pi as int, star_ti as int))
            },
        decreases (if star_pi == usize::MAX {
            tlen + 1
        } else {
            tlen - star_ti
        }), tlen - ti, plen - pi,
    {
        if pi < plen && pattern[pi] != '*' && (pattern[pi] == '?' || pattern[pi] == text[ti]) {
            proof {
                if star_pi == usize::MAX {
                    assert(run_ok(p, t, 0, 0, pi + 1)) by {
                        assert forall|m: int| 0 <= m < pi + 1 implies compat(#[trigger] p[0 + m], t[0 + m]) by {
                            if m < pi {
                                assert(compat(p[0 + m], t[0 + m]));
                            }
                        }
                    }
                    if wild_at(p, t, 0, 0) {
                        lemma_unfold(p, t, pi as int, ti as int);
                    }
                } else {
                    let a = star_pi + 1;
                    let b = star_ti as int;
                    let len = ti - star_ti;
                    assert(run_ok(p, t, a, b, len + 1)) by {
                        assert forall|m: int| 0 <= m < len + 1 implies compat(#[trigger] p[a + m], t[b + m]) by {
                            if m < len {
                                assert(compat(p[a + m], t[b + m]));
                            } else {
                                assert(a + m == pi && b + m == ti);
                            }
                        }
                    }
                }
            }
            pi = pi + 1;
            ti = ti + 1;
        } else if pi < plen && pattern[pi] == '*' {
            proof {
                let ghost old_pi = pi as int;
                if star_pi != usize::MAX {
                    let a = star_pi + 1;
                    let b = star_ti as int;
                    let len = ti - star_ti;
                    if wild_at(p, t, 0, 0) {
                        lemma_run_compat_no_star(p, t, a, b, len);
                        lemma_star_exists(p, t, star_pi as int, b);
                        let k = choose|k: int| b <= k <= t.len() && #[trigger] wild_at(p, t, a, k);
                        lemma_run_forward(p, t, a, k, len);
                        lemma_star_absorb(p, t, old_pi, ti as int, k + len);
                    }
                }
                // Soundness of the new star point.
                if wild_at(p, t, pi as int, ti as int) {
                    if star_pi == usize::MAX {
                        lemma_run_back(p, t, 0, 0, pi as int);
                    } else {
                        let a = star_pi + 1;
                        let b = star_ti as int;
                        let len = ti - star_ti;
                        lemma_run_back(p, t, a, b, len);
                        lemma_star_next(p, t, star_pi as int, b, b);
                    }
                }
            }
            star_pi = pi;
            star_ti = ti;
            pi = pi + 1;
            proof {
                assert(run_ok(p, t, star_pi + 1, star_ti as int, 0));
            }
        } else if star_pi != usize::MAX {
            proof {
                let a = star_pi + 1;
                let b = star_ti as int;
                let len = ti - star_ti;
                // Soundness: a later start for the star is still sound.
                if wild_at(p, t, star_pi as int, b + 1) {
                    lemma_unfold(p, t, star_pi as int, b);
                }
                // Completeness: the current start cannot succeed.
                if wild_at(p, t, 0, 0) {
                    lemma_run_compat_no_star(p, t, a, b, len);
                    lemma_star_exists(p, t, star_pi as int, b);
                    let k = choose|k: int| b <= k <= t.len() && #[trigger] wild_at(p, t, a, k);
                    if k == b {
                        lemma_run_forward(p, t, a, k, len);
                        lemma_unfold(p, t, pi as int, ti as int);
                        assert(false);
                    }
                    lemma_star_next(p, t, star_pi as int, b + 1, k);
                }
            }
            pi = star_pi + 1;
            star_ti = star_ti + 1;
            ti = star_ti;
            proof {
                assert(run_ok(p, t, star_pi + 1, star_ti as int, 0));
            }
        } else {
            proof {
                assert(p.skip(0) =~= p);
                assert(t.skip(0) =~= t);
                if wild_at(p, t, 0, 0) {
                    lemma_unfold(p, t, pi as int, ti as int);
                }
            }
            return false;
        }
    }
    let ghost loop_pi = pi as int;
    proof {
        // The state reached at the end of the text is sound and complete.
        if star_pi == usize::MAX {
            if wild_at(p, t, pi as int, ti as int) {
                lemma_run_back(p, t, 0, 0, pi as int);
            }
        } else {
            let a = star_pi + 1;
            let b = star_ti as int;
            let len = ti - star_ti;
            if wild_at(p, t, pi as int, ti as int) {
                lemma_run_back(p, t, a, b, len);
                lemma_star_next(p, t, star_pi as int, b, b);
            }
            if wild_at(p, t, 0, 0) {
                lemma_run_compat_no_star(p, t, a, b, len);
                lemma_star_exists(p, t, star_pi as int, b);
                let k = choose|k: int| b <= k <= t.len() && #[trigger] wild_at(p, t, a, k);
                lemma_run_forward(p, t, a, k, len);
                assert(k == b);
            }
        }
        assert(p.skip(0) =~= p);
        assert(t.skip(0) =~= t);
        assert(wild_at(p, t, pi as int, ti as int) == wild(p, t));
    }
    while pi < plen && pattern[pi] == '*'
        invariant
            plen == p.len(),
            tlen == t.len(),
            p == pattern@,
            t == text@,
            ti == tlen,
            loop_pi <= pi <= plen,
            wild_at(p, t, pi as int, tlen as int) == wild(p, t),
        decreases plen - pi,
    {
        proof {
            lemma_unfold(p, t, pi as int, tlen as int);
            if pi + 1 < plen {
                lemma_unfold(p, t, pi + 1, tlen as int);
            }
        }
        pi = pi + 1;
    }
    proof {
        lemma_unfold(p, t, pi as int, tlen as int);
    }
    pi == plen
}

proof fn lemma_run_compat_no_star(p: Seq<char>, t: Seq<char>, a: int, b: int, len: int)
    requires
        run_ok(p, t, a, b, len),
    ensures
        forall|m: int| 0 <= m < len ==> !is_star(#[trigger] p[a + m]),
{
    assert forall|m: int| 0 <= m < len implies !is_star(#[trigger] p[a + m]) by {
        assert(compat(p[a + m], t[b + m]));
    }
}

} // verus!
