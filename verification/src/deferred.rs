//! Deferred (lazily loaded) tools and keyword search over them.
use vstd::prelude::*;

use crate::text::{chars_contain, contains_seq, lowercase, split_words, to_chars, to_lowercase, views, words};

verus! {

/// A tool that is registered by name but not yet loaded into the main registry.
#[derive(Debug)]
pub struct DeferredTool {
    /// Unique tool name.
    pub name: String,
    /// Human-readable description.
    pub description: String,
    /// Keywords for fuzzy discovery.
    pub search_hints: Vec<String>,
}

/// Registry of deferred (lazily-loaded) tools.
pub struct DeferredRegistry {
    deferred: Vec<DeferredTool>,
}

/// Some hint of the tool contains `kw`, ignoring case.
pub open spec fn hint_hit(t: DeferredTool, kw: Seq<char>) -> bool {
    exists|k: int| 0 <= k < t.search_hints@.len() && contains_seq(lowercase(#[trigger] t.search_hints@[k]@), kw)
}

pub open spec fn name_hit(t: DeferredTool, kw: Seq<char>) -> bool {
    contains_seq(lowercase(t.name@), kw)
}

pub open spec fn desc_hit(t: DeferredTool, kw: Seq<char>) -> bool {
    contains_seq(lowercase(t.description@), kw)
}

/// Points for one keyword: 3 for the name, 2 for a hint, 1 for the description.
pub open spec fn keyword_points(t: DeferredTool, kw: Seq<char>) -> nat {
    (if name_hit(t, kw) {
        3nat
    } else {
        0
    }) + (if hint_hit(t, kw) {
        2nat
    } else {
        0
    }) + (if desc_hit(t, kw) {
        1nat
    } else {
        0
    })
}

pub open spec fn points_sum(t: DeferredTool, kws: Seq<Seq<char>>) -> nat
    decreases kws.len(),
{
    if kws.len() == 0 {
        0
    } else {
        points_sum(t, kws.drop_last()) + keyword_points(t, kws.last())
    }
}

/// The score of a tool: the sum of its keyword points when every keyword
/// hits somewhere, else zero.
pub open spec fn score(t: DeferredTool, kws: Seq<Seq<char>>) -> nat {
    if forall|k: int| 0 <= k < kws.len() ==> keyword_points(t, #[trigger] kws[k]) > 0 {
        points_sum(t, kws)
    } else {
        0
    }
}

/// Score of each registered tool, in registration order.
pub open spec fn scores_of(tools: Seq<DeferredTool>, kws: Seq<Seq<char>>) -> Seq<nat> {
    Seq::new(tools.len(), |i: int| score(tools[i], kws))
}

/// `a` ranks before `b`: a higher score, or an equal score and an earlier
/// registration.
pub open spec fn ranks_before(scores: Seq<nat>, a: int, b: int) -> bool {
    scores[a] > scores[b] || (scores[a] == scores[b] && a < b)
}

/// `order` lists exactly the positions with a positive score, ranked.
pub open spec fn is_ranking(scores: Seq<nat>, order: Seq<usize>) -> bool {
    &&& forall|k: int| 0 <= k < order.len() ==> 0 <= #[trigger] order[k] < scores.len() && scores[order[k] as int] > 0
    &&& forall|i: int| 0 <= i < scores.len() && scores[i] > 0 ==> exists|k: int|
        0 <= k < order.len() && #[trigger] order[k] == i
    &&& forall|a: int, b: int|
        0 <= a < b < order.len() ==> ranks_before(scores, #[trigger] order[a] as int, #[trigger] order[b] as int)
}

fn hits_in(hay: &str, kw: &Vec<char>) -> (b: bool)
    ensures
        b == contains_seq(lowercase(hay@), kw@),
{
    let l = to_lowercase(hay);
    let lv = to_chars(l.as_str());
    chars_contain(lv.as_slice(), kw.as_slice())
}

fn hint_hits(t: &DeferredTool, kw: &Vec<char>) -> (b: bool)
    ensures
        b == hint_hit(*t, kw@),
{
    let mut i: usize = 0;
    while i < t.search_hints.len()
        invariant
            i <= t.search_hints@.len(),
            forall|k: int| 0 <= k < i ==> !contains_seq(lowercase(#[trigger] t.search_hints@[k]@), kw@),
        decreases t.search_hints@.len() - i,
    {
        if hits_in(t.search_hints[i].as_str(), kw) {
            return true;
        }
        i = i + 1;
    }
    false
}

/// Score a tool against lowercase keywords. Higher is a better match.
fn keyword_score(t: &DeferredTool, keywords: &Vec<Vec<char>>) -> (r: u128)
    ensures
        r == score(*t, views(keywords@)),
{
    let ghost kws = views(keywords@);
    let mut total: u128 = 0;
    let mut i: usize = 0;
    while i < keywords.len()
        invariant
            i <= keywords@.len(),
            kws == views(keywords@),
            forall|k: int| 0 <= k < i ==> keyword_points(*t, #[trigger] kws[k]) > 0,
            total == points_sum(*t, kws.take(i as int)),
            total <= 6 * i,
        decreases keywords@.len() - i,
    {
        let kw = &keywords[i];
        assert(kws[i as int] == kw@);
        let name_hit = hits_in(t.name.as_str(), kw);
        let hint_hit = hint_hits(t, kw);
        let desc_hit = hits_in(t.description.as_str(), kw);
        if !name_hit && !hint_hit && !desc_hit {
            return 0;
        }
        if name_hit {
            total = total + 3;
        }
        if hint_hit {
            total = total + 2;
        }
        if desc_hit {
            total = total + 1;
        }
        assert(kws.take(i + 1).drop_last() =~= kws.take(i as int));
        i = i + 1;
    }
    assert(kws.take(i as int) =~= kws);
    total
}

impl DeferredRegistry {
    /// The registered deferred tools, in registration order.
    pub closed spec fn tools(&self) -> Seq<DeferredTool> {
        self.deferred@
    }

    /// Create an empty deferred registry.
    pub fn new() -> (r: Self)
        ensures
            r.tools().len() == 0,
    {
        DeferredRegistry { deferred: Vec::new() }
    }

    /// Register a deferred tool for later discovery.
    pub fn defer(&mut self, tool: DeferredTool)
        ensures
            final(self).tools() == old(self).tools().push(tool),
    {
        self.deferred.push(tool);
    }

    /// List all deferred tools.
    pub fn list(&self) -> (r: &[DeferredTool])
        ensures
            r@ == self.tools(),
    {
        self.deferred.as_slice()
    }

    /// Search for deferred tools matching `query`. The query is lowercased
    /// and split into words; a tool matches when every word occurs in its
    /// name, a hint or its description (ignoring case). Matches are ranked
    /// by score, ties kept in registration order. An empty query lists all.
    pub fn search(&self, query: &str) -> (r: Vec<&DeferredTool>)
        ensures
            words(lowercase(query@)).len() == 0 ==> r@.len() == self.tools().len() && forall|k: int|
                0 <= k < r@.len() ==> *r@[k] == self.tools()[k],
            words(lowercase(query@)).len() > 0 ==> exists|order: Seq<usize>|
                #![trigger is_ranking(scores_of(self.tools(), words(lowercase(query@))), order)]
                is_ranking(scores_of(self.tools(), words(lowercase(query@))), order)
                && order.len() == r@.len() && forall|k: int|
                    0 <= k < r@.len() ==> *r@[k] == self.tools()[#[trigger] order[k] as int],
    {
        let ql = to_lowercase(query);
        let qv = to_chars(ql.as_str());
        let keywords = split_words(qv.as_slice());
        let ghost kws = views(keywords@);
        let mut out: Vec<&DeferredTool> = Vec::new();
        if keywords.len() == 0 {
            let mut i: usize = 0;
            while i < self.deferred.len()
                invariant
                    i <= self.deferred@.len(),
                    out@.len() == i,
                    forall|k: int| 0 <= k < i ==> *out@[k] == self.deferred@[k],
                decreases self.deferred@.len() - i,
            {
                out.push(&self.deferred[i]);
                i = i + 1;
            }
            return out;
        }
        let ghost scores = Seq::new(self.deferred@.len(), |i: int| score(self.deferred@[i], kws));
        let mut sc: Vec<u128> = Vec::new();
        let mut order: Vec<usize> = Vec::new();
        let mut i: usize = 0;
        while i < self.deferred.len()
            invariant
                i <= self.deferred@.len(),
                kws == views(keywords@),
                scores == Seq::new(self.deferred@.len(), |i: int| score(self.deferred@[i], kws)),
                sc@.len() == i,
                forall|k: int| 0 <= k < i ==> sc@[k] == scores[k],
                forall|k: int| 0 <= k < order@.len() ==> 0 <= #[trigger] order@[k] < i && scores[order@[k] as int] > 0,
                forall|j: int| 0 <= j < i && scores[j] > 0 ==> exists|k: int|
                    0 <= k < order@.len() && #[trigger] order@[k] == j,
                forall|a: int, b: int|
                    0 <= a < b < order@.len() ==> ranks_before(scores, #[trigger] order@[a] as int, #[trigger] order@[b] as int),
            decreases self.deferred@.len() - i,
        {
            let s = keyword_score(&self.deferred[i], &keywords);
            sc.push(s);
            if s > 0 {
                // Position: after every entry that scores at least as much.
                let mut p: usize = 0;
                while p < order.len() && sc[order[p]] >= s
                    invariant
                        p <= order@.len(),
                        sc@.len() == i + 1,
                        sc@[i as int] == s,
                        forall|k: int| 0 <= k < i ==> sc@[k] == scores[k],
                        forall|k: int| 0 <= k < order@.len() ==> 0 <= #[trigger] order@[k] < i,
                        forall|k: int| 0 <= k < p ==> scores[#[trigger] order@[k] as int] >= s,
                    decreases order@.len() - p,
                {
                    p = p + 1;
                }
                let ghost before = order@;
                proof {
                    // Entries from `p` on score less than `s`, by the ranking.
                    assert forall|k: int| p <= k < before.len() implies scores[#[trigger] before[k] as int] < s by {
                        if scores[before[p as int] as int] < s {
                            if k > p {
                                assert(ranks_before(scores, before[p as int] as int, before[k] as int));
                            }
                        }
                    }
                }
                order.insert(p, i);
                proof {
                    assert forall|j: int| 0 <= j < i + 1 && scores[j] > 0 implies exists|k: int|
                        0 <= k < order@.len() && #[trigger] order@[k] == j by {
                        if j == i {
                            assert(order@[p as int] == i);
                        } else {
                            let k = choose|k: int| 0 <= k < before.len() && #[trigger] before[k] == j;
                            if k < p {
                                assert(order@[k] == j);
                            } else {
                                assert(order@[k + 1] == j);
                            }
                        }
                    }
                    assert forall|a: int, b: int|
                        0 <= a < b < order@.len() implies ranks_before(scores, #[trigger] order@[a] as int, #[trigger] order@[b] as int) by {
                        if a < p && b < p {
                            assert(ranks_before(scores, before[a] as int, before[b] as int));
                        } else if a < p && b == p {
                            assert(scores[before[a] as int] >= s);
                        } else if a < p && b > p {
                            assert(ranks_before(scores, before[a] as int, before[b - 1] as int));
                        } else if a == p {
                            assert(scores[before[b - 1] as int] < s);
                        } else {
                            assert(ranks_before(scores, before[a - 1] as int, before[b - 1] as int));
                        }
                    }
                }
            } else {
                proof {
                    assert forall|j: int| 0 <= j < i + 1 && scores[j] > 0 implies exists|k: int|
                        0 <= k < order@.len() && #[trigger] order@[k] == j by {
                        if j == i {
                            assert(scores[j] == 0);
                        }
                    }
                }
            }
            i = i + 1;
        }
        let mut k: usize = 0;
        while k < order.len()
            invariant
                k <= order@.len(),
                forall|m: int| 0 <= m < order@.len() ==> 0 <= #[trigger] order@[m] < self.deferred@.len(),
                out@.len() == k,
                forall|m: int| 0 <= m < k ==> *out@[m] == self.deferred@[#[trigger] order@[m] as int],
            decreases order@.len() - k,
        {
            out.push(&self.deferred[order[k]]);
            k = k + 1;
        }
        proof {
            assert(scores == scores_of(self.tools(), kws));
            assert(is_ranking(scores_of(self.tools(), kws), order@));
        }
        out
    }
}

} // verus!
