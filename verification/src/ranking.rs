//! Orders by a numeric key, largest first, ties kept in position order.
use vstd::prelude::*;

use crate::deferred::ranks_before;

verus! {

/// Position `i` occurs in `order`.
pub open spec fn listed(order: Seq<usize>, i: int) -> bool {
    exists|k: int| 0 <= k < order.len() && order[k] == i
}

/// `order` lists every position once, largest size first, ties by position.
pub open spec fn is_desc_order(sizes: Seq<nat>, order: Seq<usize>) -> bool {
    &&& order.len() == sizes.len()
    &&& forall|k: int| 0 <= k < order.len() ==> 0 <= #[trigger] order[k] < sizes.len()
    &&& forall|i: int| 0 <= i < sizes.len() ==> #[trigger] listed(order, i)
    &&& forall|a: int, b: int|
        0 <= a < b < order.len() ==> ranks_before(sizes, #[trigger] order[a] as int, #[trigger] order[b] as int)
}

/// The positions of `sizes`, largest first, equal sizes in position order.
pub fn desc_order(sizes: &Vec<u128>) -> (order: Vec<usize>)
    ensures
        is_desc_order(sizes@.map_values(|n: u128| n as nat), order@),
{
    let ghost sz = sizes@.map_values(|n: u128| n as nat);
    let mut order: Vec<usize> = Vec::new();
    let mut i: usize = 0;
    while i < sizes.len()
        invariant
            i <= sizes@.len(),
            sz == sizes@.map_values(|n: u128| n as nat),
            order@.len() == i,
            forall|k: int| 0 <= k < order@.len() ==> 0 <= #[trigger] order@[k] < i,
            forall|j: int| 0 <= j < i ==> #[trigger] listed(order@, j),
            forall|a: int, b: int|
                0 <= a < b < order@.len() ==> ranks_before(sz, #[trigger] order@[a] as int, #[trigger] order@[b] as int),
        decreases sizes@.len() - i,
    {
        let s = sizes[i];
        let mut p: usize = 0;
        while p < order.len() && sizes[order[p]] >= s
            invariant
                p <= order@.len(),
                i < sizes@.len(),
                s == sizes@[i as int],
                sz == sizes@.map_values(|n: u128| n as nat),
                forall|k: int| 0 <= k < order@.len() ==> 0 <= #[trigger] order@[k] < i,
                forall|k: int| 0 <= k < p ==> sz[#[trigger] order@[k] as int] >= s,
            decreases order@.len() - p,
        {
            p = p + 1;
        }
        let ghost before = order@;
        proof {
            assert forall|k: int| p <= k < before.len() implies sz[#[trigger] before[k] as int] < s by {
                if sz[before[p as int] as int] < s {
                    if k > p {
                        assert(ranks_before(sz, before[p as int] as int, before[k] as int));
                    }
                }
            }
        }
        order.insert(p, i);
        proof {
            assert(sz[i as int] == s);
            assert forall|j: int| 0 <= j < i + 1 implies #[trigger] listed(order@, j) by {
                if j == i {
                    assert(order@[p as int] == i);
                } else {
                    assert(listed(before, j));
                    let k = choose|k: int| 0 <= k < before.len() && before[k] == j;
                    if k < p {
                        assert(order@[k] == j);
                    } else {
                        assert(order@[k + 1] == j);
                    }
                }
            }
            assert forall|a: int, b: int|
                0 <= a < b < order@.len() implies ranks_before(sz, #[trigger] order@[a] as int, #[trigger] order@[b] as int) by {
                if a < p && b < p {
                    assert(ranks_before(sz, before[a] as int, before[b] as int));
                } else if a < p && b == p {
                    assert(sz[before[a] as int] >= s);
                } else if a < p && b > p {
                    assert(ranks_before(sz, before[a] as int, before[b - 1] as int));
                } else if a == p {
                    assert(sz[before[b - 1] as int] < s);
                } else {
                    assert(ranks_before(sz, before[a - 1] as int, before[b - 1] as int));
                }
            }
        }
        i = i + 1;
    }
    order
}


} // verus!
