use vstd::prelude::*;

use crate::value::{GcRef, Value};

verus! {

/// An entry of a table: a key (a string object) and its value.
#[derive(Debug, Clone, Copy, PartialEq, Eq, Structural)]
pub struct Entry {
    pub key: GcRef,
    pub value: Value,
}

/// A map from string objects to values; no key occurs twice.
#[derive(Debug)]
pub struct Table {
    entries: Vec<Entry>,
}

impl Table {
    pub closed spec fn entries(&self) -> Seq<Entry> {
        self.entries@
    }

    /// No key occurs twice.
    pub open spec fn wf(&self) -> bool {
        forall|i: int, j: int|
            0 <= i < self.entries().len() && 0 <= j < self.entries().len() && i != j
                ==> #[trigger] self.entries()[i].key != #[trigger] self.entries()[j].key
    }

    /// Whether the table maps `k` to `v`.
    pub open spec fn has(&self, k: GcRef, v: Value) -> bool {
        exists|i: int| 0 <= i < self.entries().len() && #[trigger] self.entries()[i] == (Entry { key: k, value: v })
    }

    /// Whether the table has the key `k`.
    pub open spec fn has_key(&self, k: GcRef) -> bool {
        exists|i: int| 0 <= i < self.entries().len() && #[trigger] self.entries()[i].key == k
    }

    pub fn new() -> (t: Table)
        ensures
            t.wf(),
            t.entries().len() == 0,
    {
        Table { entries: Vec::new() }
    }

    pub fn len(&self) -> (n: usize)
        ensures
            n == self.entries().len(),
    {
        self.entries.len()
    }

    /// The entry at position `i`.
    pub fn entry(&self, i: usize) -> (e: Entry)
        requires
            i < self.entries().len(),
        ensures
            e == self.entries()[i as int],
    {
        self.entries[i]
    }

    fn find(&self, key: GcRef) -> (r: Option<usize>)
        ensures
            match r {
                Some(i) => i < self.entries().len() && self.entries()[i as int].key == key,
                None => forall|i: int| 0 <= i < self.entries().len() ==> self.entries()[i].key != key,
            },
    {
        let mut i: usize = 0;
        while i < self.entries.len()
            invariant
                i <= self.entries.len(),
                forall|k: int| 0 <= k < i ==> self.entries@[k].key != key,
            decreases self.entries.len() - i,
        {
            if self.entries[i].key == key {
                return Some(i);
            }
            i += 1;
        }
        None
    }

    /// The value under `key`, if any.
    pub fn get(&self, key: GcRef) -> (r: Option<Value>)
        requires
            self.wf(),
        ensures
            match r {
                Some(v) => self.has(key, v) && self.has_key(key),
                None => !self.has_key(key),
            },
    {
        match self.find(key) {
            Some(i) => {
                let v = self.entries[i].value;
                assert(self.entries()[i as int] == (Entry { key, value: v }));
                Some(v)
            },
            None => None,
        }
    }

    /// Sets `key` to `value`; returns whether the key is new.
    pub fn set(&mut self, key: GcRef, value: Value) -> (is_new: bool)
        requires
            old(self).wf(),
        ensures
            final(self).wf(),
            is_new == !old(self).has_key(key),
            forall|k: GcRef| #[trigger] final(self).has_key(k) <==> (old(self).has_key(k) || k == key),
            final(self).has(key, value),
            forall|k: GcRef, v: Value| k != key ==> (#[trigger] final(self).has(k, v) <==> old(self).has(k, v)),
            final(self).entries().len() == old(self).entries().len() + (if is_new { 1int } else { 0int }),
    {
        match self.find(key) {
            Some(i) => {
                let ghost old_self = *self;
                self.entries.set(i, Entry { key, value });
                assert(self.entries@[i as int] == (Entry { key, value }));
                assert forall|k: GcRef, v: Value| k != key implies (self.has(k, v) <==> old_self.has(k, v)) by {
                    if old_self.has(k, v) {
                        let j = choose|j: int| 0 <= j < old_self.entries().len() && #[trigger] old_self.entries()[j] == (Entry { key: k, value: v });
                        assert(self.entries@[j] == old_self.entries()[j]);
                    }
                    if self.has(k, v) {
                        let j = choose|j: int| 0 <= j < self.entries().len() && #[trigger] self.entries()[j] == (Entry { key: k, value: v });
                        assert(self.entries@[j] == old_self.entries()[j]);
                    }
                }
                assert forall|k: GcRef| #[trigger] self.has_key(k) <==> (old_self.has_key(k) || k == key) by {
                    if old_self.has_key(k) {
                        let j = choose|j: int| 0 <= j < old_self.entries().len() && #[trigger] old_self.entries()[j].key == k;
                        if j == i {
                            assert(self.entries@[i as int].key == k);
                        } else {
                            assert(self.entries@[j] == old_self.entries()[j]);
                        }
                    }
                    if self.has_key(k) {
                        let j = choose|j: int| 0 <= j < self.entries().len() && #[trigger] self.entries()[j].key == k;
                        if j != i {
                            assert(self.entries@[j] == old_self.entries()[j]);
                        }
                    }
                    if k == key {
                        assert(self.entries@[i as int].key == k);
                    }
                }
                false
            },
            None => {
                let ghost old_self = *self;
                self.entries.push(Entry { key, value });
                assert(self.entries@[old_self.entries().len() as int] == (Entry { key, value }));
                assert forall|k: GcRef, v: Value| k != key implies (self.has(k, v) <==> old_self.has(k, v)) by {
                    if old_self.has(k, v) {
                        let j = choose|j: int| 0 <= j < old_self.entries().len() && #[trigger] old_self.entries()[j] == (Entry { key: k, value: v });
                        assert(self.entries@[j] == old_self.entries()[j]);
                    }
                    if self.has(k, v) {
                        let j = choose|j: int| 0 <= j < self.entries().len() && #[trigger] self.entries()[j] == (Entry { key: k, value: v });
                        assert(j < old_self.entries().len());
                        assert(self.entries@[j] == old_self.entries()[j]);
                    }
                }
                assert forall|k: GcRef| #[trigger] self.has_key(k) <==> (old_self.has_key(k) || k == key) by {
                    if old_self.has_key(k) {
                        let j = choose|j: int| 0 <= j < old_self.entries().len() && #[trigger] old_self.entries()[j].key == k;
                        assert(self.entries@[j] == old_self.entries()[j]);
                    }
                    if self.has_key(k) {
                        let j = choose|j: int| 0 <= j < self.entries().len() && #[trigger] self.entries()[j].key == k;
                        if j < old_self.entries().len() {
                            assert(self.entries@[j] == old_self.entries()[j]);
                        }
                    }
                    if k == key {
                        assert(self.entries@[old_self.entries().len() as int].key == k);
                    }
                }
                true
            },
        }
    }

    /// Removes `key`; returns whether it was there.
    pub fn delete(&mut self, key: GcRef) -> (found: bool)
        requires
            old(self).wf(),
        ensures
            final(self).wf(),
            found == old(self).has_key(key),
            forall|k: GcRef| #[trigger] final(self).has_key(k) <==> (old(self).has_key(k) && k != key),
            !final(self).has_key(key),
            forall|k: GcRef, v: Value| k != key ==> (#[trigger] final(self).has(k, v) <==> old(self).has(k, v)),
    {
        match self.find(key) {
            Some(i) => {
                let ghost old_entries = self.entries@;
                let ghost old_self = *self;
                self.entries.remove(i);
                assert(self.entries@ =~= old_entries.remove(i as int));
                assert forall|k: GcRef, v: Value| k != key implies (self.has(k, v) <==> old_self.has(k, v)) by {
                    if old_self.has(k, v) {
                        let j = choose|j: int| 0 <= j < old_self.entries().len() && #[trigger] old_self.entries()[j] == (Entry { key: k, value: v });
                        assert(j != i);
                        if j < i {
                            assert(self.entries@[j] == old_entries[j]);
                        } else {
                            assert(self.entries@[j - 1] == old_entries[j]);
                        }
                    }
                    if self.has(k, v) {
                        let j = choose|j: int| 0 <= j < self.entries().len() && #[trigger] self.entries()[j] == (Entry { key: k, value: v });
                        if j < i {
                            assert(old_entries[j] == self.entries@[j]);
                        } else {
                            assert(old_entries[j + 1] == self.entries@[j]);
                        }
                    }
                }
                assert forall|a: int, b: int|
                    0 <= a < self.entries@.len() && 0 <= b < self.entries@.len() && a != b
                        implies #[trigger] self.entries@[a].key != #[trigger] self.entries@[b].key by {
                    let oa = if a < i { a } else { a + 1 };
                    let ob = if b < i { b } else { b + 1 };
                    assert(self.entries@[a] == old_entries[oa]);
                    assert(self.entries@[b] == old_entries[ob]);
                }
                assert forall|k: GcRef| #[trigger] self.has_key(k) <==> (old_self.has_key(k) && k != key) by {
                    if old_self.has_key(k) && k != key {
                        let j = choose|j: int| 0 <= j < old_self.entries().len() && #[trigger] old_self.entries()[j].key == k;
                        assert(j != i);
                        if j < i {
                            assert(self.entries@[j] == old_entries[j]);
                        } else {
                            assert(self.entries@[j - 1] == old_entries[j]);
                        }
                    }
                    if self.has_key(k) {
                        let j = choose|j: int| 0 <= j < self.entries().len() && #[trigger] self.entries()[j].key == k;
                        let oj = if j < i { j } else { j + 1 };
                        assert(self.entries@[j] == old_entries[oj]);
                    }
                }
                assert forall|j: int| 0 <= j < self.entries@.len() implies self.entries@[j].key != key by {
                    let oj = if j < i { j } else { j + 1 };
                    assert(self.entries@[j] == old_entries[oj]);
                }
                true
            },
            None => false,
        }
    }
}

/// A key has one value: what `get` gives back for a key is the value that
/// the last `set` of it wrote.
pub proof fn lemma_key_unique(t: &Table, k: GcRef, v1: Value, v2: Value)
    requires
        t.wf(),
        t.has(k, v1),
        t.has(k, v2),
    ensures
        v1 == v2,
{
    let i = choose|i: int| 0 <= i < t.entries().len() && #[trigger] t.entries()[i] == (Entry { key: k, value: v1 });
    let j = choose|j: int| 0 <= j < t.entries().len() && #[trigger] t.entries()[j] == (Entry { key: k, value: v2 });
    if i != j {
        assert(t.entries()[i].key != t.entries()[j].key);
    }
}

} // verus!
