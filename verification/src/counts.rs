//! Counters keyed by name.
use vstd::prelude::*;

use crate::text::{owned, str_eq};

verus! {

/// The count recorded for `key` in `entries`: the value of the first entry
/// named `key`, or zero.
pub open spec fn count_in(entries: Seq<(String, u32)>, key: Seq<char>) -> nat
    decreases entries.len(),
{
    if entries.len() == 0 {
        0
    } else if entries[0].0@ == key {
        entries[0].1 as nat
    } else {
        count_in(entries.drop_first(), key)
    }
}

/// A table of counters keyed by name; a name that was never counted, or was
/// cleared, counts zero.
pub struct NameCounts {
    entries: Vec<(String, u32)>,
}

proof fn lemma_count_first(entries: Seq<(String, u32)>, key: Seq<char>, i: int)
    requires
        0 <= i < entries.len(),
        entries[i].0@ == key,
        forall|k: int| 0 <= k < i ==> entries[k].0@ != key,
    ensures
        count_in(entries, key) == entries[i].1,
    decreases i,
{
    if i > 0 {
        let t = entries.drop_first();
        assert forall|k: int| 0 <= k < i - 1 implies t[k].0@ != key by {
            assert(t[k] == entries[k + 1]);
        }
        lemma_count_first(t, key, i - 1);
    }
}

proof fn lemma_count_none(entries: Seq<(String, u32)>, key: Seq<char>)
    requires
        forall|k: int| 0 <= k < entries.len() ==> entries[k].0@ != key,
    ensures
        count_in(entries, key) == 0,
    decreases entries.len(),
{
    if entries.len() > 0 {
        let t = entries.drop_first();
        assert forall|k: int| 0 <= k < t.len() implies t[k].0@ != key by {
            assert(t[k] == entries[k + 1]);
        }
        lemma_count_none(t, key);
    }
}

proof fn lemma_count_update(entries: Seq<(String, u32)>, key: Seq<char>, i: int, v: u32, other: Seq<char>)
    requires
        0 <= i < entries.len(),
        entries[i].0@ == key,
        other != key,
    ensures
        count_in(entries.update(i, (entries[i].0, v)), other) == count_in(entries, other),
    decreases entries.len(),
{
    let u = entries.update(i, (entries[i].0, v));
    if i > 0 {
        if entries[0].0@ != other {
            assert(u.drop_first() =~= entries.drop_first().update(i - 1, (entries[i].0, v)));
            lemma_count_update(entries.drop_first(), key, i - 1, v, other);
        }
    } else {
        assert(u.drop_first() =~= entries.drop_first());
    }
}

proof fn lemma_count_push(entries: Seq<(String, u32)>, e: (String, u32), other: Seq<char>)
    requires
        e.0@ != other,
    ensures
        count_in(entries.push(e), other) == count_in(entries, other),
    decreases entries.len(),
{
    reveal_with_fuel(count_in, 2);
    if entries.len() == 0 {
        assert(entries.push(e)[0] == e);
        assert(entries.push(e).drop_first() =~= Seq::<(String, u32)>::empty());
    } else {
        assert(entries.push(e)[0] == entries[0]);
        assert(entries.push(e).drop_first() =~= entries.drop_first().push(e));
        lemma_count_push(entries.drop_first(), e, other);
    }
}

impl NameCounts {
    /// The count recorded for `key`.
    pub closed spec fn count(&self, key: Seq<char>) -> nat {
        count_in(self.entries@, key)
    }

    /// An empty table.
    pub fn new() -> (r: Self)
        ensures
            forall|k: Seq<char>| r.count(k) == 0,
    {
        NameCounts { entries: Vec::new() }
    }

    fn position(&self, key: &str) -> (r: Option<usize>)
        ensures
            match r {
                Some(i) => i < self.entries@.len() && self.entries@[i as int].0@ == key@ && forall|
                    k: int,
                | 0 <= k < i ==> self.entries@[k].0@ != key@,
                None => forall|k: int|
                    0 <= k < self.entries@.len() ==> self.entries@[k].0@ != key@,
            },
    {
        let mut i: usize = 0;
        while i < self.entries.len()
            invariant
                i <= self.entries@.len(),
                forall|k: int| 0 <= k < i ==> self.entries@[k].0@ != key@,
            decreases self.entries@.len() - i,
        {
            if str_eq(self.entries[i].0.as_str(), key) {
                return Some(i);
            }
            i = i + 1;
        }
        None
    }

    /// The count recorded for `key`.
    pub fn get(&self, key: &str) -> (r: u32)
        ensures
            r == self.count(key@),
    {
        match self.position(key) {
            Some(i) => {
                proof {
                    lemma_count_first(self.entries@, key@, i as int);
                }
                self.entries[i].1
            },
            None => {
                proof {
                    lemma_count_none(self.entries@, key@);
                }
                0
            },
        }
    }

    /// Adds one to the count of `key`.
    pub fn increment(&mut self, key: &str)
        requires
            old(self).count(key@) < u32::MAX,
        ensures
            final(self).count(key@) == old(self).count(key@) + 1,
            forall|k: Seq<char>| k != key@ ==> final(self).count(k) == old(self).count(k),
    {
        match self.position(key) {
            Some(i) => {
                proof {
                    lemma_count_first(self.entries@, key@, i as int);
                }
                let ghost before = self.entries@;
                let name = self.entries[i].0.clone();
                let v = self.entries[i].1;
                self.entries.set(i, (name, v + 1));
                proof {
                    assert(self.entries@ == before.update(i as int, (before[i as int].0, (v + 1) as u32)));
                    lemma_count_first(self.entries@, key@, i as int);
                    assert forall|k: Seq<char>| k != key@ implies count_in(self.entries@, k) == count_in(before, k) by {
                        lemma_count_update(before, key@, i as int, (v + 1) as u32, k);
                    }
                }
            },
            None => {
                let ghost before = self.entries@;
                proof {
                    lemma_count_none(before, key@);
                }
                let name = owned(key);
                self.entries.push((name, 1));
                proof {
                    lemma_count_first(self.entries@, key@, before.len() as int);
                    assert forall|k: Seq<char>| k != key@ implies count_in(self.entries@, k) == count_in(before, k) by {
                        lemma_count_push(before, (name, 1u32), k);
                    }
                }
            },
        }
    }

    /// Forgets the count of `key`.
    pub fn remove(&mut self, key: &str)
        ensures
            final(self).count(key@) == 0,
            forall|k: Seq<char>| k != key@ ==> final(self).count(k) == old(self).count(k),
    {
        let mut kept: Vec<(String, u32)> = Vec::new();
        let mut i: usize = 0;
        assert(self.entries@.skip(0) =~= self.entries@);
        while i < self.entries.len()
            invariant
                i <= self.entries@.len(),
                forall|k: int| 0 <= k < kept@.len() ==> kept@[k].0@ != key@,
                forall|k: Seq<char>|
                    k != key@ ==> count_in(self.entries@, k) == (if exists|j: int|
                        0 <= j < kept@.len() && kept@[j].0@ == k {
                        count_in(kept@, k)
                    } else {
                        count_in(self.entries@.skip(i as int), k)
                    }),
            decreases self.entries@.len() - i,
        {
            let ghost kept0 = kept@;
            let ghost rest = self.entries@.skip(i as int);
            assert(rest.drop_first() =~= self.entries@.skip(i + 1));
            if !str_eq(self.entries[i].0.as_str(), key) {
                let e = (self.entries[i].0.clone(), self.entries[i].1);
                kept.push(e);
                proof {
                    assert forall|k: Seq<char>| k != key@ implies count_in(self.entries@, k) == (if exists|j: int|
                        0 <= j < kept@.len() && kept@[j].0@ == k {
                        count_in(kept@, k)
                    } else {
                        count_in(self.entries@.skip(i + 1), k)
                    }) by {
                        if exists|j: int| 0 <= j < kept0.len() && kept0[j].0@ == k {
                            let j = choose|j: int| 0 <= j < kept0.len() && kept0[j].0@ == k;
                            assert(kept@[j] == kept0[j]);
                            if e.0@ != k {
                                lemma_count_push(kept0, e, k);
                            } else {
                                lemma_count_push_same(kept0, e, k);
                            }
                        } else if e.0@ == k {
                            lemma_count_none(kept0, k);
                            lemma_count_first(kept@, k, kept0.len() as int);
                            assert(kept@[kept0.len() as int] == e);
                        } else {
                            assert(!exists|j: int| 0 <= j < kept@.len() && kept@[j].0@ == k) by {
                                if exists|j: int| 0 <= j < kept@.len() && kept@[j].0@ == k {
                                    let j = choose|j: int| 0 <= j < kept@.len() && kept@[j].0@ == k;
                                    if j < kept0.len() {
                                        assert(kept@[j] == kept0[j]);
                                    }
                                }
                            }
                        }
                    }
                }
            } else {
                proof {
                    assert forall|k: Seq<char>| k != key@ implies count_in(self.entries@, k) == (if exists|j: int|
                        0 <= j < kept@.len() && kept@[j].0@ == k {
                        count_in(kept@, k)
                    } else {
                        count_in(self.entries@.skip(i + 1), k)
                    }) by {}
                }
            }
            i = i + 1;
        }
        proof {
            lemma_count_none(kept@, key@);
            assert forall|k: Seq<char>| k != key@ implies count_in(kept@, k) == count_in(self.entries@, k) by {
                assert(self.entries@.skip(i as int) =~= Seq::<(String, u32)>::empty());
                if !exists|j: int| 0 <= j < kept@.len() && kept@[j].0@ == k {
                    lemma_count_none(kept@, k);
                }
            }
        }
        self.entries = kept;
    }

    /// Forgets every count.
    pub fn clear(&mut self)
        ensures
            forall|k: Seq<char>| final(self).count(k) == 0,
    {
        self.entries = Vec::new();
    }
}

proof fn lemma_count_push_same(entries: Seq<(String, u32)>, e: (String, u32), key: Seq<char>)
    requires
        exists|j: int| 0 <= j < entries.len() && entries[j].0@ == key,
    ensures
        count_in(entries.push(e), key) == count_in(entries, key),
    decreases entries.len(),
{
    if entries[0].0@ != key {
        let j = choose|j: int| 0 <= j < entries.len() && entries[j].0@ == key;
        assert(entries.drop_first()[j - 1] == entries[j]);
        assert(entries.push(e).drop_first() =~= entries.drop_first().push(e));
        lemma_count_push_same(entries.drop_first(), e, key);
    }
}

} // verus!
