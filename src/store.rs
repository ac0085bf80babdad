//! Key/value tables with default-zero reads, kept as association lists.
use vstd::prelude::*;

verus! {

/// The value stored under `k` in `entries`, or zero where `k` has no entry.
pub open spec fn value_of<K>(entries: Seq<(K, u32)>, k: K) -> nat
    decreases entries.len(),
{
    if entries.len() == 0 {
        0
    } else if entries.last().0 == k {
        entries.last().1 as nat
    } else {
        value_of(entries.drop_last(), k)
    }
}

/// The sum of all values held in `entries`.
pub open spec fn total_of<K>(entries: Seq<(K, u32)>) -> nat
    decreases entries.len(),
{
    if entries.len() == 0 {
        0
    } else {
        total_of(entries.drop_last()) + entries.last().1 as nat
    }
}

/// No key has two entries.
pub open spec fn keys_unique<K>(entries: Seq<(K, u32)>) -> bool {
    forall|i: int, j: int|
        0 <= i < j < entries.len() ==> #[trigger] entries[i].0 != #[trigger] entries[j].0
}

proof fn lemma_value_at_index<K>(entries: Seq<(K, u32)>, i: int)
    requires
        keys_unique(entries),
        0 <= i < entries.len(),
    ensures
        value_of(entries, entries[i].0) == entries[i].1 as nat,
    decreases entries.len(),
{
    if i < entries.len() - 1 {
        let d = entries.drop_last();
        assert(entries[i].0 != entries[entries.len() - 1].0);
        assert(d[i] == entries[i]);
        lemma_value_at_index(d, i);
    }
}

proof fn lemma_value_absent<K>(entries: Seq<(K, u32)>, k: K)
    requires
        forall|i: int| 0 <= i < entries.len() ==> (#[trigger] entries[i]).0 != k,
    ensures
        value_of(entries, k) == 0,
    decreases entries.len(),
{
    if entries.len() > 0 {
        let d = entries.drop_last();
        assert forall|i: int| 0 <= i < d.len() implies (#[trigger] d[i]).0 != k by {
            assert(d[i] == entries[i]);
        }
        lemma_value_absent(d, k);
    }
}

proof fn lemma_value_update<K>(entries: Seq<(K, u32)>, i: int, v: u32, x: K)
    requires
        keys_unique(entries),
        0 <= i < entries.len(),
    ensures
        keys_unique(entries.update(i, (entries[i].0, v))),
        value_of(entries.update(i, (entries[i].0, v)), x) == if x == entries[i].0 {
            v as nat
        } else {
            value_of(entries, x)
        },
        total_of(entries.update(i, (entries[i].0, v))) + entries[i].1 == total_of(entries) + v,
    decreases entries.len(),
{
    let u = entries.update(i, (entries[i].0, v));
    assert forall|a: int, b: int| 0 <= a < b < u.len() implies #[trigger] u[a].0
        != #[trigger] u[b].0 by {
        assert(u[a].0 == entries[a].0 && u[b].0 == entries[b].0);
    }
    let n = entries.len() - 1;
    if i == n {
        assert(u.drop_last() =~= entries.drop_last());
    } else {
        let d = entries.drop_last();
        assert(keys_unique(d));
        lemma_value_update(d, i, v, x);
        assert(u.drop_last() =~= d.update(i, (d[i].0, v)));
        assert(u.last() == entries.last());
        assert(entries[i].0 != entries[n].0);
    }
}

proof fn lemma_value_push<K>(entries: Seq<(K, u32)>, k: K, v: u32, x: K)
    requires
        keys_unique(entries),
        forall|i: int| 0 <= i < entries.len() ==> (#[trigger] entries[i]).0 != k,
    ensures
        keys_unique(entries.push((k, v))),
        value_of(entries.push((k, v)), x) == if x == k {
            v as nat
        } else {
            value_of(entries, x)
        },
        total_of(entries.push((k, v))) == total_of(entries) + v,
{
    let p = entries.push((k, v));
    assert(p.drop_last() =~= entries);
    assert forall|a: int, b: int| 0 <= a < b < p.len() implies #[trigger] p[a].0
        != #[trigger] p[b].0 by {
        if b == entries.len() {
            assert(p[a] == entries[a]);
        } else {
            assert(p[a] == entries[a] && p[b] == entries[b]);
        }
    }
}

/// No single value exceeds the total.
pub proof fn lemma_value_within_total<K>(entries: Seq<(K, u32)>, k: K)
    ensures
        value_of(entries, k) <= total_of(entries),
    decreases entries.len(),
{
    if entries.len() > 0 {
        lemma_value_within_total(entries.drop_last(), k);
    }
}

/// With distinct keys, the values of two different keys together never
/// exceed the total.
pub proof fn lemma_two_values_within_total<K>(entries: Seq<(K, u32)>, a: K, b: K)
    requires
        keys_unique(entries),
        a != b,
    ensures
        value_of(entries, a) + value_of(entries, b) <= total_of(entries),
    decreases entries.len(),
{
    if entries.len() > 0 {
        let d = entries.drop_last();
        assert(keys_unique(d)) by {
            assert forall|i: int, j: int| 0 <= i < j < d.len() implies #[trigger] d[i].0
                != #[trigger] d[j].0 by {
                assert(d[i] == entries[i] && d[j] == entries[j]);
            }
        }
        lemma_two_values_within_total(d, a, b);
        let k = entries.last().0;
        if k == a || k == b {
            let other = if k == a { b } else { a };
            assert forall|i: int| 0 <= i < d.len() implies (#[trigger] d[i]).0 != k by {
                assert(d[i] == entries[i]);
                assert(entries[i].0 != entries[entries.len() - 1].0);
            }
            lemma_value_absent(d, k);
        }
    }
}

/// A key of a table: a value that can be compared for equality.
pub trait TableKey: Sized {
    fn same(&self, other: &Self) -> (r: bool)
        ensures
            r == (*self == *other),
    ;
}

impl TableKey for u64 {
    fn same(&self, other: &Self) -> (r: bool) {
        *self == *other
    }
}

impl TableKey for (u64, u64) {
    fn same(&self, other: &Self) -> (r: bool) {
        self.0 == other.0 && self.1 == other.1
    }
}

/// A map from keys to `u32` values in which every key not yet written reads as zero.
pub struct Table<K> {
    entries: Vec<(K, u32)>,
}

impl<K: TableKey> Table<K> {
    /// The entries, in the order in which their keys were first written.
    pub closed spec fn entries(&self) -> Seq<(K, u32)> {
        self.entries@
    }

    pub open spec fn wf(&self) -> bool {
        keys_unique(self.entries())
    }

    /// The value under `k`, zero where none was written.
    pub open spec fn value(&self, k: K) -> nat {
        value_of(self.entries(), k)
    }

    /// The sum of all values.
    pub open spec fn total(&self) -> nat {
        total_of(self.entries())
    }

    pub fn new() -> (r: Self)
        ensures
            r.wf(),
            forall|k: K| r.value(k) == 0,
            r.total() == 0,
    {
        Table { entries: Vec::new() }
    }

    fn find(&self, k: &K) -> (r: Option<usize>)
        ensures
            match r {
                Some(i) => i < self.entries@.len() && self.entries@[i as int].0 == *k,
                None => forall|i: int|
                    0 <= i < self.entries@.len() ==> (#[trigger] self.entries@[i]).0 != *k,
            },
    {
        let mut i: usize = 0;
        while i < self.entries.len()
            invariant
                i <= self.entries@.len(),
                forall|j: int| 0 <= j < i ==> (#[trigger] self.entries@[j]).0 != *k,
            decreases self.entries@.len() - i,
        {
            if self.entries[i].0.same(k) {
                return Some(i);
            }
            i = i + 1;
        }
        None
    }

    /// Reads the value under `k`.
    pub fn get(&self, k: &K) -> (r: u32)
        requires
            self.wf(),
        ensures
            r as nat == self.value(*k),
    {
        match self.find(k) {
            Some(i) => {
                proof {
                    lemma_value_at_index(self.entries@, i as int);
                }
                self.entries[i].1
            },
            None => {
                proof {
                    lemma_value_absent(self.entries@, *k);
                }
                0
            },
        }
    }

    /// Writes `v` under `k`, leaving every other key as it was.
    pub fn set(&mut self, k: K, v: u32)
        requires
            old(self).wf(),
        ensures
            final(self).wf(),
            forall|x: K| #[trigger]
                final(self).value(x) == if x == k {
                    v as nat
                } else {
                    old(self).value(x)
                },
            final(self).total() + old(self).value(k) == old(self).total() + v,
    {
        match self.find(&k) {
            Some(i) => {
                proof {
                    lemma_value_at_index(self.entries@, i as int);
                    assert forall|x: K| #[trigger]
                        value_of(self.entries@.update(i as int, (k, v)), x) == if x == k {
                            v as nat
                        } else {
                            value_of(self.entries@, x)
                        } by {
                        lemma_value_update(self.entries@, i as int, v, x);
                    }
                    lemma_value_update(self.entries@, i as int, v, k);
                }
                self.entries.set(i, (k, v));
            },
            None => {
                proof {
                    lemma_value_absent(self.entries@, k);
                    assert forall|x: K| #[trigger]
                        value_of(self.entries@.push((k, v)), x) == if x == k {
                            v as nat
                        } else {
                            value_of(self.entries@, x)
                        } by {
                        lemma_value_push(self.entries@, k, v, x);
                    }
                    lemma_value_push(self.entries@, k, v, k);
                }
                self.entries.push((k, v));
            },
        }
    }
}

} // verus!
