//! A per-message budget on the total size of tool results.
use vstd::prelude::*;

use crate::ranking::{desc_order, is_desc_order};
use crate::text::{owned, str_byte_len, utf8_len};
use crate::tool::ToolResult;

verus! {

/// The stub that replaces a result cut by the budget.
pub open spec fn budget_stub() -> Seq<char> {
    "[Result truncated due to message budget]"@
}

/// `e` is the stub under the name `name`.
pub open spec fn is_stub_entry(e: (String, ToolResult), name: String) -> bool {
    &&& e.0 == name
    &&& e.1 matches ToolResult::Text(t) && t@ == budget_stub()
}

/// Byte length of the stub.
pub const STUB_LEN: usize = 40;

/// Per-message budget for total tool result size.
pub struct ResultBudget {
    /// Maximum total bytes across all tool results in a single message.
    pub max_total_bytes: usize,
}

impl Default for ResultBudget {
    fn default() -> (r: Self)
        ensures
            r.max_total_bytes == 200_000,
    {
        ResultBudget { max_total_bytes: 200_000 }
    }
}

/// The byte size of a result's text (a JSON result by its serialization).
pub open spec fn result_size(r: ToolResult) -> nat {
    match r {
        ToolResult::Text(s) => utf8_len(s@),
        ToolResult::Json(d) => utf8_len(d.text@),
        ToolResult::Error { message, .. } => utf8_len(message@),
        ToolResult::Empty => 0,
    }
}

pub open spec fn result_sizes(results: Seq<(String, ToolResult)>) -> Seq<nat> {
    results.map_values(|e: (String, ToolResult)| result_size(e.1))
}

pub open spec fn sum_sizes(sizes: Seq<nat>) -> nat
    decreases sizes.len(),
{
    if sizes.len() == 0 {
        0
    } else {
        sum_sizes(sizes.drop_last()) + sizes.last()
    }
}

/// The positions whose results are replaced: going through `order` while
/// bytes are still in excess, every result larger than the stub is cut and
/// its size less the stub's is reclaimed.
pub open spec fn budget_victims(sizes: Seq<nat>, order: Seq<usize>, excess: int) -> Seq<int>
    decreases order.len(),
{
    if order.len() == 0 || excess <= 0 {
        Seq::empty()
    } else if sizes[order[0] as int] <= STUB_LEN {
        budget_victims(sizes, order.drop_first(), excess)
    } else {
        seq![order[0] as int] + budget_victims(
            sizes,
            order.drop_first(),
            excess - (sizes[order[0] as int] - STUB_LEN),
        )
    }
}

fn result_bytes(r: &ToolResult) -> (n: usize)
    ensures
        n == result_size(*r),
{
    match r {
        ToolResult::Text(s) => str_byte_len(s.as_str()),
        ToolResult::Json(d) => str_byte_len(d.text.as_str()),
        ToolResult::Error { message, .. } => str_byte_len(message.as_str()),
        ToolResult::Empty => 0,
    }
}

impl ResultBudget {
    /// Enforce the budget across a set of named tool results. When their
    /// total size exceeds the budget, results are taken largest first (ties
    /// in order) and each one larger than the stub is replaced by the stub,
    /// until the bytes reclaimed cover the excess. Names are kept.
    pub fn enforce(&self, results: &mut Vec<(String, ToolResult)>)
        ensures
            final(results)@.len() == old(results)@.len(),
            sum_sizes(result_sizes(old(results)@)) <= self.max_total_bytes ==> final(results)@ == old(results)@,
            sum_sizes(result_sizes(old(results)@)) > self.max_total_bytes ==> exists|order: Seq<usize>|
                #![trigger is_desc_order(result_sizes(old(results)@), order)]
                is_desc_order(result_sizes(old(results)@), order) && {
                    let victims = budget_victims(
                        result_sizes(old(results)@),
                        order,
                        sum_sizes(result_sizes(old(results)@)) - self.max_total_bytes,
                    );
                    forall|i: int|
                        0 <= i < old(results)@.len() ==> if victims.contains(i) {
                            is_stub_entry(#[trigger] final(results)@[i], old(results)@[i].0)
                        } else {
                            final(results)@[i] == old(results)@[i]
                        }
                },
    {
        let ghost orig = results@;
        let ghost sz = result_sizes(orig);
        let mut sizes: Vec<u128> = Vec::new();
        let mut total: u128 = 0;
        let mut i: usize = 0;
        while i < results.len()
            invariant
                i <= results@.len(),
                results@ == orig,
                sz == result_sizes(orig),
                sizes@.len() == i,
                forall|k: int| 0 <= k < i ==> sizes@[k] as nat == sz[k],
                total == sum_sizes(sz.take(i as int)),
                total <= i * (usize::MAX as int),
            decreases results@.len() - i,
        {
            let n = result_bytes(&results[i].1);
            sizes.push(n as u128);
            proof {
                assert(sz.take(i + 1).drop_last() =~= sz.take(i as int));
            }
            total = total + (n as u128);
            i = i + 1;
        }
        assert(sz.take(i as int) =~= sz);
        if total <= (self.max_total_bytes as u128) {
            return;
        }
        let mut excess: u128 = total - (self.max_total_bytes as u128);
        let order = desc_order(&sizes);
        assert(sizes@.map_values(|n: u128| n as nat) =~= sz);
        let ghost all = budget_victims(sz, order@, excess as int);
        let ghost mut done: Seq<int> = Seq::empty();
        let mut k: usize = 0;
        assert(order@.skip(0) =~= order@);
        while k < order.len() && excess > 0
            invariant
                k <= order@.len() == sz.len() == orig.len(),
                sizes@.len() == sz.len(),
                forall|m: int| 0 <= m < sizes@.len() ==> sizes@[m] as nat == sz[m],
                is_desc_order(sz, order@),
                results@.len() == orig.len(),
                done + budget_victims(sz, order@.skip(k as int), excess as int) == all,
                forall|m: int|
                    0 <= m < orig.len() ==> if done.contains(m) {
                        is_stub_entry(#[trigger] results@[m], orig[m].0)
                    } else {
                        results@[m] == orig[m]
                    },
            decreases order@.len() - k,
        {
            let idx = order[k];
            let size = sizes[idx];
            let ghost e0 = excess as int;
            let ghost rest = order@.skip(k as int);
            proof {
                assert(rest[0] == idx);
                assert(rest.drop_first() =~= order@.skip(k + 1));
            }
            if size > (STUB_LEN as u128) {
                let name = results[idx].0.clone();
                let stub = owned("[Result truncated due to message budget]");
                assert(orig[idx as int].0 == results@[idx as int].0);
                proof {
                    assert(name == results@[idx as int].0);
                }
                let ghost before = results@;
                results.set(idx, (name, ToolResult::Text(stub)));
                let reclaim = size - (STUB_LEN as u128);
                proof {
                    assert(budget_victims(sz, rest, excess as int) == seq![idx as int] + budget_victims(
                        sz,
                        rest.drop_first(),
                        excess - (sz[idx as int] - STUB_LEN),
                    ));
                    assert((done.push(idx as int)) + budget_victims(sz, rest.drop_first(), excess - (sz[idx as int] - STUB_LEN))
                        =~= done + (seq![idx as int] + budget_victims(sz, rest.drop_first(), excess - (sz[idx as int] - STUB_LEN))));
                    let ghost done_old = done;
                    done = done.push(idx as int);
                    assert forall|m: int| 0 <= m < orig.len() implies if done.contains(m) {
                        is_stub_entry(#[trigger] results@[m], orig[m].0)
                    } else {
                        results@[m] == orig[m]
                    } by {
                        assert(before[m] == if done_old.contains(m) { before[m] } else { orig[m] });
                        if m != idx {
                            assert(results@[m] == before[m]);
                            assert(done.contains(m) == done_old.contains(m)) by {
                                if done.contains(m) {
                                    let w = choose|w: int| 0 <= w < done.len() && done[w] == m;
                                    assert(w < done_old.len());
                                    assert(done_old[w] == m);
                                }
                                if done_old.contains(m) {
                                    let w = choose|w: int| 0 <= w < done_old.len() && done_old[w] == m;
                                    assert(done[w] == m);
                                }
                            }
                            if done_old.contains(m) {
                                assert(is_stub_entry(before[m], orig[m].0));
                            }
                        } else {
                            assert(done[done.len() - 1] == m);
                            assert(before[m].0 == orig[m].0) by {
                                if done_old.contains(m) {
                                    assert(is_stub_entry(before[m], orig[m].0));
                                }
                            }
                        }
                    }
                }
                if excess > reclaim {
                    excess = excess - reclaim;
                } else {
                    excess = 0;
                    proof {
                        assert(budget_victims(sz, rest.drop_first(), 0) =~= Seq::<int>::empty());
                        assert(budget_victims(sz, rest.drop_first(), e0 - (sz[idx as int] - STUB_LEN)) =~= Seq::<int>::empty());
                    }
                }
            } else {
                proof {
                    assert(budget_victims(sz, rest, excess as int) == budget_victims(sz, rest.drop_first(), excess as int));
                }
            }
            k = k + 1;
        }
        proof {
            assert(budget_victims(sz, order@.skip(k as int), excess as int) =~= Seq::<int>::empty());
            assert(done =~= all);
        }
    }
}

} // verus!
