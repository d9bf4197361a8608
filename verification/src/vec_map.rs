//! A small map that keeps its entries in a vector.

use vstd::prelude::*;

verus! {

/// Keys that can be compared.
pub trait Key: Copy {
    /// Whether two keys are equal.
    fn same(&self, other: &Self) -> (b: bool)
        ensures
            b == (*self == *other),
    ;
}

/// A map from keys to values.
#[derive(Debug)]
pub struct VecMap<K, V> {
    /// The entries, in no particular order.
    pub entries: Vec<(K, V)>,
}

/// Where `key` stands among `entries`.
pub open spec fn has_key<K, V>(entries: Seq<(K, V)>, key: K, i: int) -> bool {
    0 <= i < entries.len() && entries[i].0 == key
}

/// The map that a list of entries stands for.
pub open spec fn entries_map<K, V>(entries: Seq<(K, V)>) -> Map<K, V>
    decreases entries.len(),
{
    if entries.len() == 0 {
        Map::empty()
    } else {
        entries_map(entries.drop_last()).insert(entries.last().0, entries.last().1)
    }
}

/// No key occurs twice.
pub open spec fn distinct_keys<K, V>(entries: Seq<(K, V)>) -> bool {
    forall|i: int, j: int|
        0 <= i < j < entries.len() ==> (#[trigger] entries[i]).0 != (#[trigger] entries[j]).0
}

impl<K, V> View for VecMap<K, V> {
    type V = Map<K, V>;

    open spec fn view(&self) -> Map<K, V> {
        entries_map(self.entries@)
    }
}

/// What the map of a list of entries holds.
pub proof fn lemma_entries_map<K, V>(entries: Seq<(K, V)>)
    requires
        distinct_keys(entries),
    ensures
        forall|i: int|
            0 <= i < entries.len() ==> #[trigger] entries_map(entries).contains_key(entries[i].0)
                && entries_map(entries)[entries[i].0] == entries[i].1,
        forall|k: K| #[trigger]
            entries_map(entries).contains_key(k) ==> exists|i: int| has_key(entries, k, i),
        entries_map(entries).dom().finite(),
        entries_map(entries).dom().len() == entries.len(),
    decreases entries.len(),
{
    if entries.len() > 0 {
        let rest = entries.drop_last();
        let m = entries_map(entries);
        lemma_entries_map(rest);
        assert forall|k: K| #[trigger] m.contains_key(k) implies exists|i: int|
            has_key(entries, k, i) by {
            if k == entries.last().0 {
                assert(has_key(entries, k, entries.len() - 1));
            } else {
                assert(entries_map(rest).contains_key(k));
                let i = choose|i: int| has_key(rest, k, i);
                assert(has_key(entries, k, i));
            }
        }
        assert(!entries_map(rest).contains_key(entries.last().0)) by {
            if entries_map(rest).contains_key(entries.last().0) {
                let i = choose|i: int| has_key(rest, entries.last().0, i);
                assert(entries[i].0 == entries[entries.len() - 1].0);
            }
        }
        assert forall|i: int| 0 <= i < entries.len() implies #[trigger] m.contains_key(entries[i].0)
            && m[entries[i].0] == entries[i].1 by {
            if i < rest.len() {
                assert(rest[i] == entries[i]);
                assert(entries_map(rest).contains_key(rest[i].0));
            }
        }
        assert(m.dom() =~= entries_map(rest).dom().insert(entries.last().0));
    }
}

/// A map is determined by its entries, in whatever order they stand.
pub proof fn lemma_entries_map_is<K, V>(entries: Seq<(K, V)>, m: Map<K, V>)
    requires
        distinct_keys(entries),
        forall|i: int|
            0 <= i < entries.len() ==> m.contains_key((#[trigger] entries[i]).0)
                && m[entries[i].0] == entries[i].1,
        forall|k: K| #[trigger] m.contains_key(k) ==> exists|i: int| has_key(entries, k, i),
    ensures
        entries_map(entries) == m,
{
    lemma_entries_map(entries);
    let n = entries_map(entries);
    assert forall|k: K| n.contains_key(k) == m.contains_key(k) by {
        if n.contains_key(k) {
            let i = choose|i: int| has_key(entries, k, i);
            assert(m.contains_key(entries[i].0));
        }
        if m.contains_key(k) {
            let i = choose|i: int| has_key(entries, k, i);
            assert(n.contains_key(entries[i].0));
        }
    }
    assert forall|k: K| n.contains_key(k) implies #[trigger] n[k] == m[k] by {
        let i = choose|i: int| has_key(entries, k, i);
        assert(n.contains_key(entries[i].0));
    }
    assert(n =~= m);
}

impl<K: Key, V> VecMap<K, V> {
    /// No key occurs twice.
    pub open spec fn wf(&self) -> bool {
        distinct_keys(self.entries@)
    }

    /// An empty map.
    pub fn new() -> (m: Self)
        ensures
            m.wf(),
            m@ == Map::<K, V>::empty(),
    {
        VecMap { entries: Vec::new() }
    }

    /// The number of keys.
    pub fn len(&self) -> (n: usize)
        requires
            self.wf(),
        ensures
            n == self@.dom().len(),
            self@.dom().finite(),
    {
        proof {
            lemma_entries_map(self.entries@);
        }
        self.entries.len()
    }

    /// Where `key` stands.
    pub fn position(&self, key: &K) -> (r: Option<usize>)
        requires
            self.wf(),
        ensures
            match r {
                Some(i) => has_key(self.entries@, *key, i as int) && self@.contains_key(*key)
                    && self@[*key] == self.entries@[i as int].1,
                None => !self@.contains_key(*key),
            },
    {
        proof {
            lemma_entries_map(self.entries@);
        }
        let mut i: usize = 0;
        while i < self.entries.len()
            invariant
                i <= self.entries@.len(),
                forall|j: int| 0 <= j < i ==> (#[trigger] self.entries@[j]).0 != *key,
                forall|j: int|
                    0 <= j < self.entries@.len() ==> #[trigger] self@.contains_key(
                        self.entries@[j].0,
                    ) && self@[self.entries@[j].0] == self.entries@[j].1,
            decreases self.entries@.len() - i,
        {
            if self.entries[i].0.same(key) {
                assert(self@.contains_key(self.entries@[i as int].0));
                return Some(i);
            }
            i += 1;
        }
        proof {
            if self@.contains_key(*key) {
                let j = choose|j: int| has_key(self.entries@, *key, j);
                assert(self.entries@[j].0 == *key);
            }
        }
        None
    }

    /// Whether the map has `key`.
    pub fn contains_key(&self, key: &K) -> (b: bool)
        requires
            self.wf(),
        ensures
            b == self@.contains_key(*key),
    {
        self.position(key).is_some()
    }

    /// The value at `key`.
    pub fn get(&self, key: &K) -> (r: Option<&V>)
        requires
            self.wf(),
        ensures
            match r {
                Some(v) => self@.contains_key(*key) && *v == self@[*key],
                None => !self@.contains_key(*key),
            },
    {
        match self.position(key) {
            Some(i) => Some(&self.entries[i].1),
            None => None,
        }
    }

    /// Takes the entry at `key` out.
    pub fn remove(&mut self, key: &K) -> (r: Option<V>)
        requires
            old(self).wf(),
        ensures
            final(self).wf(),
            final(self)@ == old(self)@.remove(*key),
            match r {
                Some(v) => old(self)@.contains_key(*key) && v == old(self)@[*key],
                None => !old(self)@.contains_key(*key),
            },
    {
        let ghost before = self.entries@;
        match self.position(key) {
            Some(i) => {
                let (_, v) = self.entries.swap_remove(i);
                proof {
                    lemma_swap_remove(before, i as int);
                }
                Some(v)
            },
            None => {
                assert(self@ =~= old(self)@.remove(*key));
                None
            },
        }
    }

    /// Puts `value` at `key`, in place of what was there.
    pub fn insert(&mut self, key: K, value: V)
        requires
            old(self).wf(),
        ensures
            final(self).wf(),
            final(self)@ == old(self)@.insert(key, value),
    {
        let _ = self.remove(&key);
        let ghost before = self.entries@;
        self.entries.push((key, value));
        proof {
            assert(self.entries@.drop_last() =~= before);
            lemma_entries_map(before);
            assert forall|j: int| 0 <= j < before.len() implies (#[trigger] before[j]).0 != key by {
                assert(entries_map(before).contains_key(before[j].0));
            }
            assert(self@ =~= old(self)@.insert(key, value));
        }
    }

    /// Keeps the entries that satisfy `keep`, which decides as `p` does.
    pub fn retain<F: Fn(&K, &V) -> bool>(
        &mut self,
        keep: F,
        Ghost(p): Ghost<spec_fn(K, V) -> bool>,
    )
        requires
            old(self).wf(),
            forall|k: K, v: V| #[trigger] keep.requires((&k, &v)),
            forall|k: K, v: V, b: bool| #[trigger] keep.ensures((&k, &v), b) ==> b == p(k, v),
        ensures
            final(self).wf(),
            final(self)@ == old(self)@.restrict(Set::new(|k: K| p(k, old(self)@[k]))),
    {
        let ghost all = self@;
        proof {
            lemma_entries_map(self.entries@);
        }
        let mut i: usize = 0;
        while i < self.entries.len()
            invariant
                i <= self.entries@.len(),
                self.wf(),
                all.dom().finite(),
                forall|k: K, v: V| #[trigger] keep.requires((&k, &v)),
                forall|k: K, v: V, b: bool| #[trigger] keep.ensures((&k, &v), b) ==> b == p(k, v),
                forall|j: int|
                    0 <= j < i ==> p((#[trigger] self.entries@[j]).0, self.entries@[j].1),
                self@.submap_of(all),
                forall|k: K| #[trigger] all.contains_key(k) && p(k, all[k]) ==> self@.contains_key(k),
            decreases self.entries@.len() - i,
        {
            let ghost before = self.entries@;
            let ghost held = self@;
            proof {
                lemma_entries_map(before);
                assert(held.contains_key(before[i as int].0));
            }
            if keep(&self.entries[i].0, &self.entries[i].1) {
                i += 1;
            } else {
                let ghost gone = self.entries@[i as int].0;
                let _ = self.entries.swap_remove(i);
                proof {
                    lemma_swap_remove(before, i as int);
                    assert(self@ == held.remove(gone));
                }
            }
        }
        proof {
            lemma_entries_map(self.entries@);
            assert forall|k: K| self@.contains_key(k) implies #[trigger] p(k, all[k]) by {
                let j = choose|j: int| has_key(self.entries@, k, j);
                assert(p(self.entries@[j].0, self.entries@[j].1));
                assert(self@.contains_key(self.entries@[j].0));
                assert(all.dom().contains(k));
                assert(self@[k] == all[k]);
            }
            assert(self@ =~= all.restrict(Set::new(|k: K| p(k, all[k]))));
        }
    }
}

/// Taking one entry out by moving the last one into its place.
pub proof fn lemma_swap_remove<K, V>(before: Seq<(K, V)>, i: int)
    requires
        distinct_keys(before),
        0 <= i < before.len(),
    ensures
        distinct_keys(before.update(i, before.last()).drop_last()),
        entries_map(before.update(i, before.last()).drop_last()) == entries_map(before).remove(
            before[i].0,
        ),
{
    let after = before.update(i, before.last()).drop_last();
    let m = entries_map(before).remove(before[i].0);
    lemma_entries_map(before);
    assert forall|j: int| 0 <= j < after.len() implies m.contains_key((#[trigger] after[j]).0)
        && m[after[j].0] == after[j].1 by {
        let k = if j == i { before.len() - 1 } else { j };
        assert(after[j] == before[k]);
        assert(entries_map(before).contains_key(before[k].0));
    }
    assert forall|k: K| #[trigger] m.contains_key(k) implies exists|j: int| has_key(after, k, j) by {
        let j = choose|j: int| has_key(before, k, j);
        if j == before.len() - 1 {
            assert(has_key(after, k, i));
        } else {
            assert(has_key(after, k, j));
        }
    }
    lemma_entries_map_is(after, m);
}

} // verus!
