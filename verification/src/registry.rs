//! The registry of loaded tools, keyed by name, with a change counter.
use vstd::prelude::*;

use crate::deferred::{DeferredRegistry, DeferredTool};
use crate::text::{owned, str_eq};

verus! {

/// The tool that the first entry named `key` holds, if any.
pub open spec fn lookup<T>(entries: Seq<(String, T)>, key: Seq<char>) -> Option<T>
    decreases entries.len(),
{
    if entries.len() == 0 {
        None
    } else if entries[0].0@ == key {
        Some(entries[0].1)
    } else {
        lookup(entries.drop_first(), key)
    }
}

/// No two entries share a name.
pub open spec fn distinct_names<T>(entries: Seq<(String, T)>) -> bool {
    forall|i: int, j: int|
        0 <= i < entries.len() && 0 <= j < entries.len() && i != j ==> entries[i].0@ != entries[j].0@
}

/// Registry of available tools: each name maps to one tool. Every
/// registration and every removal that finds its tool counts as a change.
pub struct ToolRegistry<T> {
    entries: Vec<(String, T)>,
    generation: u64,
}

proof fn lemma_lookup_at<T>(entries: Seq<(String, T)>, key: Seq<char>, i: int)
    requires
        0 <= i < entries.len(),
        entries[i].0@ == key,
        forall|k: int| 0 <= k < i ==> entries[k].0@ != key,
    ensures
        lookup(entries, key) == Some(entries[i].1),
    decreases i,
{
    if i > 0 {
        let t = entries.drop_first();
        assert forall|k: int| 0 <= k < i - 1 implies t[k].0@ != key by {
            assert(t[k] == entries[k + 1]);
        }
        lemma_lookup_at(t, key, i - 1);
    }
}

proof fn lemma_lookup_absent<T>(entries: Seq<(String, T)>, key: Seq<char>)
    requires
        forall|k: int| 0 <= k < entries.len() ==> entries[k].0@ != key,
    ensures
        lookup(entries, key) is None,
    decreases entries.len(),
{
    if entries.len() > 0 {
        let t = entries.drop_first();
        assert forall|k: int| 0 <= k < t.len() implies t[k].0@ != key by {
            assert(t[k] == entries[k + 1]);
        }
        lemma_lookup_absent(t, key);
    }
}

/// With distinct names, a key is found exactly when some entry bears it, and
/// then with that entry's tool.
proof fn lemma_lookup<T>(entries: Seq<(String, T)>, key: Seq<char>)
    requires
        distinct_names(entries),
    ensures
        (lookup(entries, key) is Some) <==> (exists|i: int|
            0 <= i < entries.len() && #[trigger] entries[i].0@ == key),
        forall|i: int|
            0 <= i < entries.len() && #[trigger] entries[i].0@ == key ==> lookup(entries, key) == Some(
                entries[i].1,
            ),
{
    assert forall|i: int| 0 <= i < entries.len() && #[trigger] entries[i].0@ == key implies lookup(
        entries,
        key,
    ) == Some(entries[i].1) by {
        lemma_lookup_at(entries, key, i);
    }
    if forall|i: int| 0 <= i < entries.len() ==> #[trigger] entries[i].0@ != key {
        lemma_lookup_absent(entries, key);
    }
}

/// Replacing the tool of a present name changes the map at that name only.
proof fn lemma_replace<T>(old: Seq<(String, T)>, new: Seq<(String, T)>, i: int, key: Seq<char>, tool: T)
    requires
        distinct_names(old),
        0 <= i < old.len(),
        old[i].0@ == key,
        new.len() == old.len(),
        new[i].0@ == key,
        new[i].1 == tool,
        forall|j: int| 0 <= j < old.len() && j != i ==> #[trigger] new[j] == old[j],
    ensures
        distinct_names(new),
        entries_map(new) == entries_map(old).insert(key, tool),
{
    assert forall|a: int, b: int|
        0 <= a < new.len() && 0 <= b < new.len() && a != b implies new[a].0@ != new[b].0@ by {
        assert(new[a].0@ == old[a].0@);
        assert(new[b].0@ == old[b].0@);
    }
    let m = entries_map(old).insert(key, tool);
    assert forall|k: Seq<char>|
        #[trigger] entries_map(new).dom().contains(k) == m.dom().contains(k) && (entries_map(
            new,
        ).dom().contains(k) ==> entries_map(new)[k] == m[k]) by {
        lemma_lookup(old, k);
        lemma_lookup(new, k);
        if k != key {
            if lookup(new, k) is Some {
                let j = choose|j: int| 0 <= j < new.len() && #[trigger] new[j].0@ == k;
                assert(old[j].0@ == k);
            }
            if lookup(old, k) is Some {
                let j = choose|j: int| 0 <= j < old.len() && #[trigger] old[j].0@ == k;
                assert(new[j].0@ == k);
            }
        } else {
            assert(new[i].0@ == k);
        }
    }
    assert(entries_map(new) =~= m);
}

/// Appending an entry for an absent name adds that name to the map.
proof fn lemma_append<T>(old: Seq<(String, T)>, new: Seq<(String, T)>, key: Seq<char>, tool: T)
    requires
        distinct_names(old),
        forall|j: int| 0 <= j < old.len() ==> #[trigger] old[j].0@ != key,
        new.len() == old.len() + 1,
        new[old.len() as int].0@ == key,
        new[old.len() as int].1 == tool,
        forall|j: int| 0 <= j < old.len() ==> #[trigger] new[j] == old[j],
    ensures
        distinct_names(new),
        entries_map(new) == entries_map(old).insert(key, tool),
{
    let n = old.len() as int;
    assert forall|a: int, b: int|
        0 <= a < new.len() && 0 <= b < new.len() && a != b implies new[a].0@ != new[b].0@ by {
        if a < n {
            assert(new[a] == old[a]);
        }
        if b < n {
            assert(new[b] == old[b]);
        }
    }
    let m = entries_map(old).insert(key, tool);
    assert forall|k: Seq<char>|
        #[trigger] entries_map(new).dom().contains(k) == m.dom().contains(k) && (entries_map(
            new,
        ).dom().contains(k) ==> entries_map(new)[k] == m[k]) by {
        lemma_lookup(old, k);
        lemma_lookup(new, k);
        if k != key {
            if lookup(new, k) is Some {
                let j = choose|j: int| 0 <= j < new.len() && #[trigger] new[j].0@ == k;
                assert(j != n);
                assert(new[j] == old[j]);
                assert(old[j].0@ == k);
            }
            if lookup(old, k) is Some {
                let j = choose|j: int| 0 <= j < old.len() && #[trigger] old[j].0@ == k;
                assert(new[j] == old[j]);
                assert(new[j].0@ == k);
            }
        } else {
            assert(new[n].0@ == k);
        }
    }
    assert(entries_map(new) =~= m);
}

/// Removing the entry of a present name removes that name from the map.
proof fn lemma_drop<T>(old: Seq<(String, T)>, i: int, key: Seq<char>)
    requires
        distinct_names(old),
        0 <= i < old.len(),
        old[i].0@ == key,
    ensures
        distinct_names(old.remove(i)),
        entries_map(old.remove(i)) == entries_map(old).remove(key),
{
    let new = old.remove(i);
    assert forall|a: int, b: int|
        0 <= a < new.len() && 0 <= b < new.len() && a != b implies new[a].0@ != new[b].0@ by {
        let a2 = if a < i { a } else { a + 1 };
        let b2 = if b < i { b } else { b + 1 };
        assert(new[a] == old[a2]);
        assert(new[b] == old[b2]);
    }
    let m = entries_map(old).remove(key);
    assert forall|k: Seq<char>|
        #[trigger] entries_map(new).dom().contains(k) == m.dom().contains(k) && (entries_map(
            new,
        ).dom().contains(k) ==> entries_map(new)[k] == m[k]) by {
        lemma_lookup(old, k);
        lemma_lookup(new, k);
        if lookup(new, k) is Some {
            let j = choose|j: int| 0 <= j < new.len() && #[trigger] new[j].0@ == k;
            let j2 = if j < i { j } else { j + 1 };
            assert(new[j] == old[j2]);
            assert(old[j2].0@ == k);
            assert(j2 != i);
        }
        if k != key && lookup(old, k) is Some {
            let j = choose|j: int| 0 <= j < old.len() && #[trigger] old[j].0@ == k;
            assert(j != i);
            let j2 = if j < i { j } else { j - 1 };
            assert(new[j2] == old[j]);
            assert(new[j2].0@ == k);
        }
    }
    assert(entries_map(new) =~= m);
}

/// The map that a sequence of entries describes.
pub open spec fn entries_map<T>(entries: Seq<(String, T)>) -> Map<Seq<char>, T> {
    Map::new(|k: Seq<char>| lookup(entries, k) is Some, |k: Seq<char>| lookup(entries, k)->0)
}

impl<T> View for ToolRegistry<T> {
    type V = Map<Seq<char>, T>;

    closed spec fn view(&self) -> Map<Seq<char>, T> {
        entries_map(self.entries@)
    }
}

impl<T> ToolRegistry<T> {
    /// No two registered tools share a name.
    pub closed spec fn wf(&self) -> bool {
        distinct_names(self.entries@)
    }

    /// The change counter.
    pub closed spec fn changes(&self) -> u64 {
        self.generation
    }

    /// Create an empty registry.
    pub fn new() -> (r: Self)
        ensures
            r.wf(),
            r@ == Map::<Seq<char>, T>::empty(),
            r.changes() == 0,
    {
        let r = ToolRegistry { entries: Vec::new(), generation: 0 };
        assert(r@ =~= Map::<Seq<char>, T>::empty());
        r
    }

    /// The index of the entry named `name`, if any.
    fn position(&self, name: &str) -> (r: Option<usize>)
        requires
            self.wf(),
        ensures
            match r {
                Some(i) => i < self.entries@.len() && self.entries@[i as int].0@ == name@,
                None => forall|k: int| 0 <= k < self.entries@.len() ==> self.entries@[k].0@ != name@,
            },
    {
        let mut i: usize = 0;
        while i < self.entries.len()
            invariant
                i <= self.entries@.len(),
                forall|k: int| 0 <= k < i ==> self.entries@[k].0@ != name@,
            decreases self.entries@.len() - i,
        {
            if str_eq(self.entries[i].0.as_str(), name) {
                return Some(i);
            }
            i = i + 1;
        }
        None
    }

    /// Register a tool under `name`, replacing any tool of that name.
    /// Increments the change counter.
    pub fn register(&mut self, name: &str, tool: T)
        requires
            old(self).wf(),
            old(self).changes() < u64::MAX,
        ensures
            final(self).wf(),
            final(self)@ == old(self)@.insert(name@, tool),
            final(self).changes() == old(self).changes() + 1,
    {
        let ghost old_entries = self.entries@;
        let key = owned(name);
        match self.position(name) {
            Some(i) => {
                self.entries.remove(i);
                self.entries.insert(i, (key, tool));
                proof {
                    lemma_replace(old_entries, self.entries@, i as int, name@, tool);
                }
            },
            None => {
                self.entries.push((key, tool));
                proof {
                    lemma_append(old_entries, self.entries@, name@, tool);
                }
            },
        }
        self.generation = self.generation + 1;
    }

    /// Register a tool, or defer it: a tool that asks to be deferred and
    /// need not always be loaded goes to `deferred` under `entry`; any other
    /// is registered under `entry`'s name. Returns whether it was deferred.
    pub fn register_auto(
        &mut self,
        tool: T,
        entry: DeferredTool,
        should_defer: bool,
        always_load: bool,
        deferred: &mut DeferredRegistry,
    ) -> (r: bool)
        requires
            old(self).wf(),
            old(self).changes() < u64::MAX,
        ensures
            r == (should_defer && !always_load),
            final(self).wf(),
            r ==> final(deferred).tools() == old(deferred).tools().push(entry) && final(self)@ == old(
                self,
            )@ && final(self).changes() == old(self).changes(),
            !r ==> final(deferred).tools() == old(deferred).tools() && final(self)@ == old(
                self,
            )@.insert(entry.name@, tool) && final(self).changes() == old(self).changes() + 1,
    {
        if should_defer && !always_load {
            deferred.defer(entry);
            true
        } else {
            self.register(entry.name.as_str(), tool);
            false
        }
    }

    /// Remove a tool by name. Returns `true` if it was present; only then is
    /// the change counter incremented.
    pub fn deregister(&mut self, name: &str) -> (r: bool)
        requires
            old(self).wf(),
            old(self)@.dom().contains(name@) ==> old(self).changes() < u64::MAX,
        ensures
            final(self).wf(),
            r == old(self)@.dom().contains(name@),
            final(self)@ == old(self)@.remove(name@),
            final(self).changes() == old(self).changes() + (if r { 1int } else { 0int }),
    {
        let ghost old_entries = self.entries@;
        proof {
            lemma_lookup(old_entries, name@);
        }
        match self.position(name) {
            Some(i) => {
                self.entries.remove(i);
                proof {
                    lemma_drop(old_entries, i as int, name@);
                }
                self.generation = self.generation + 1;
                true
            },
            None => {
                assert(self@ =~= old(self)@.remove(name@));
                false
            },
        }
    }

    /// Look up a tool by name.
    pub fn get(&self, name: &str) -> (r: Option<&T>)
        requires
            self.wf(),
        ensures
            match r {
                Some(t) => self@.dom().contains(name@) && *t == self@[name@],
                None => !self@.dom().contains(name@),
            },
    {
        proof {
            lemma_lookup(self.entries@, name@);
        }
        match self.position(name) {
            Some(i) => Some(&self.entries[i].1),
            None => None,
        }
    }

    /// All registered tool names, each once.
    pub fn names(&self) -> (r: Vec<&str>)
        requires
            self.wf(),
        ensures
            forall|i: int| 0 <= i < r@.len() ==> self@.dom().contains(#[trigger] r@[i]@),
            forall|k: Seq<char>| #[trigger] self@.dom().contains(k) ==> exists|i: int|
                0 <= i < r@.len() && r@[i]@ == k,
            forall|i: int, j: int| 0 <= i < r@.len() && 0 <= j < r@.len() && i != j ==> r@[i]@ != r@[j]@,
    {
        let mut r: Vec<&str> = Vec::new();
        let mut i: usize = 0;
        while i < self.entries.len()
            invariant
                i <= self.entries@.len(),
                r@.len() == i,
                forall|j: int| 0 <= j < i ==> #[trigger] r@[j]@ == self.entries@[j].0@,
            decreases self.entries@.len() - i,
        {
            r.push(self.entries[i].0.as_str());
            i = i + 1;
        }
        proof {
            let e = self.entries@;
            assert forall|j: int| 0 <= j < r@.len() implies self@.dom().contains(#[trigger] r@[j]@) by {
                lemma_lookup(e, r@[j]@);
                assert(e[j].0@ == r@[j]@);
            }
            assert forall|k: Seq<char>| #[trigger] self@.dom().contains(k) implies exists|j: int|
                0 <= j < r@.len() && r@[j]@ == k by {
                lemma_lookup(e, k);
                let j = choose|j: int| 0 <= j < e.len() && #[trigger] e[j].0@ == k;
                assert(r@[j]@ == k);
            }
            assert forall|a: int, b: int|
                0 <= a < r@.len() && 0 <= b < r@.len() && a != b implies r@[a]@ != r@[b]@ by {
                assert(r@[a]@ == e[a].0@);
                assert(r@[b]@ == e[b].0@);
            }
        }
        r
    }

    /// Current change counter (incremented on every register and on every
    /// deregister that removes a tool).
    pub fn generation(&self) -> (r: u64)
        ensures
            r == self.changes(),
    {
        self.generation
    }
}

impl<T> Default for ToolRegistry<T> {
    fn default() -> (r: Self)
        ensures
            r.wf(),
            r@ == Map::<Seq<char>, T>::empty(),
            r.changes() == 0,
    {
        Self::new()
    }
}

// ---------------------------------------------------------------------------
// Tool definitions on offer
// ---------------------------------------------------------------------------

/// A tool as the definition list sees it: its name, whether it is
/// available, and its toolset.
pub open spec fn tool_row_views(rows: Seq<(String, bool, String)>) -> Seq<(Seq<char>, bool, Seq<char>)> {
    rows.map_values(|r: (String, bool, String)| (r.0@, r.1, r.2@))
}

/// A tool's definition is offered when the tool is available and, where
/// toolsets are given, its toolset is one of them.
pub open spec fn is_offered(row: (Seq<char>, bool, Seq<char>), toolsets: Option<Seq<Seq<char>>>) -> bool {
    &&& row.1
    &&& match toolsets {
        None => true,
        Some(ts) => ts.contains(row.2),
    }
}

/// The names of the offered tools, in the order given.
pub open spec fn offered_names(rows: Seq<(Seq<char>, bool, Seq<char>)>, toolsets: Option<Seq<Seq<char>>>) -> Seq<Seq<char>>
    decreases rows.len(),
{
    if rows.len() == 0 {
        Seq::empty()
    } else {
        let before = offered_names(rows.drop_last(), toolsets);
        if is_offered(rows.last(), toolsets) {
            before.push(rows.last().0)
        } else {
            before
        }
    }
}

pub open spec fn toolset_views(toolsets: Option<&Vec<&str>>) -> Option<Seq<Seq<char>>> {
    match toolsets {
        Some(v) => Some(crate::text::strs_view(v@)),
        None => None,
    }
}

/// The names of the tools whose definitions are offered: the available
/// ones, and with `toolsets` only those of the enabled toolsets, in order.
pub fn offered_tools(rows: &Vec<(String, bool, String)>, toolsets: Option<&Vec<&str>>) -> (r: Vec<String>)
    ensures
        r@.map_values(|s: String| s@) == offered_names(tool_row_views(rows@), toolset_views(toolsets)),
{
    let ghost rv = tool_row_views(rows@);
    let ghost ts = toolset_views(toolsets);
    let mut out: Vec<String> = Vec::new();
    let mut i: usize = 0;
    while i < rows.len()
        invariant
            i <= rows@.len(),
            rv == tool_row_views(rows@),
            ts == toolset_views(toolsets),
            out@.map_values(|s: String| s@) == offered_names(rv.take(i as int), ts),
        decreases rows@.len() - i,
    {
        let ghost before = out@.map_values(|s: String| s@);
        proof {
            assert(rv.take(i + 1).drop_last() =~= rv.take(i as int));
            assert(rv.take(i + 1).last() == rv[i as int]);
            assert(rv[i as int] == (rows@[i as int].0@, rows@[i as int].1, rows@[i as int].2@));
        }
        let row = &rows[i];
        let shown = row.1 && match toolsets {
            Some(v) => crate::text::str_in(v, row.2.as_str()),
            None => true,
        };
        if shown {
            out.push(owned(row.0.as_str()));
            assert(out@.map_values(|s: String| s@) =~= before.push(rows@[i as int].0@));
        }
        i = i + 1;
    }
    assert(rv.take(rows@.len() as int) =~= rv);
    out
}

} // verus!
