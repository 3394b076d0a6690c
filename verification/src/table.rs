//! A table from texts to values, in the order in which its keys were added.

use vstd::prelude::*;

use crate::text::{chars_of, is_text};

verus! {

/// A table with at most one value per key.
#[derive(Debug)]
pub struct Table<V> {
    entries: Vec<(String, V)>,
}

/// The keys of a list of entries.
pub open spec fn entry_keys<V>(e: Seq<(String, V)>) -> Seq<Seq<char>> {
    e.map_values(|x: (String, V)| x.0@)
}

/// An index at which the key `k` stands.
spec fn key_index<V>(e: Seq<(String, V)>, k: Seq<char>) -> int {
    choose|i: int| 0 <= i < e.len() && e[i].0@ == k
}

impl<V> View for Table<V> {
    type V = Map<Seq<char>, V>;

    closed spec fn view(&self) -> Map<Seq<char>, V> {
        Map::new(
            |k: Seq<char>| exists|i: int| 0 <= i < self.entries@.len() && self.entries@[i].0@ == k,
            |k: Seq<char>| self.entries@[key_index(self.entries@, k)].1,
        )
    }
}

impl<V> Table<V> {
    #[verifier::type_invariant]
    spec fn distinct_keys(self) -> bool {
        forall|i: int, j: int|
            0 <= i < j < self.entries@.len() ==> (#[trigger] self.entries@[i]).0@ != (
            #[trigger] self.entries@[j]).0@
    }

    /// The keys, in the order in which they were added.
    pub closed spec fn order(&self) -> Seq<Seq<char>> {
        entry_keys(self.entries@)
    }

    proof fn lemma_view(&self)
        requires
            self.distinct_keys(),
        ensures
            forall|i: int|
                0 <= i < self.entries@.len() ==> self@.contains_key(
                    (#[trigger] self.entries@[i]).0@,
                ) && self@[self.entries@[i].0@] == self.entries@[i].1,
            self@.dom().finite(),
            self@.len() == self.entries@.len(),
            self.order().no_duplicates(),
            self.order().to_set() == self@.dom(),
    {
        let e = self.entries@;
        let keys = entry_keys(e);
        assert forall|i: int| 0 <= i < e.len() implies self@.contains_key(
            (#[trigger] e[i]).0@,
        ) && self@[e[i].0@] == e[i].1 by {
            let k = e[i].0@;
            let j = key_index(e, k);
            assert(0 <= j < e.len() && e[j].0@ == k);
        }
        assert(keys.no_duplicates());
        keys.unique_seq_to_set();
        vstd::seq_lib::seq_to_set_is_finite(keys);
        assert(keys.to_set() =~= self@.dom()) by {
            assert forall|k: Seq<char>| keys.to_set().contains(k) == self@.dom().contains(k) by {
                if keys.contains(k) {
                    let i = choose|i: int| 0 <= i < keys.len() && keys[i] == k;
                    assert(e[i].0@ == k);
                }
                if self@.dom().contains(k) {
                    let i = choose|i: int| 0 <= i < e.len() && e[i].0@ == k;
                    assert(keys[i] == k);
                }
            }
        }
    }

    /// An empty table.
    pub fn new() -> (t: Self)
        ensures
            t@ == Map::<Seq<char>, V>::empty(),
            t.order() == Seq::<Seq<char>>::empty(),
    {
        let t = Table { entries: Vec::new() };
        assert(t@ =~= Map::<Seq<char>, V>::empty());
        assert(t.order() =~= Seq::<Seq<char>>::empty());
        t
    }

    /// The number of keys.
    pub fn len(&self) -> (n: usize)
        ensures
            n == self@.len(),
            n == self.order().len(),
            self@.dom().finite(),
            self.order().no_duplicates(),
            self.order().to_set() == self@.dom(),
    {
        proof {
            use_type_invariant(self);
            self.lemma_view();
        }
        self.entries.len()
    }

    /// The position of the key `k`.
    fn position(&self, k: &str) -> (r: Option<usize>)
        ensures
            match r {
                Some(i) => i < self.entries@.len() && self.entries@[i as int].0@ == k@
                    && self@.contains_key(k@) && self@[k@] == self.entries@[i as int].1,
                None => !self@.contains_key(k@) && forall|i: int|
                    0 <= i < self.entries@.len() ==> (#[trigger] self.entries@[i]).0@ != k@,
            },
    {
        proof {
            use_type_invariant(self);
            self.lemma_view();
        }
        let key = chars_of(k);
        let mut i: usize = 0;
        while i < self.entries.len()
            invariant
                i <= self.entries@.len(),
                key@ == k@,
                forall|j: int|
                    0 <= j < self.entries@.len() ==> self@.contains_key(
                        (#[trigger] self.entries@[j]).0@,
                    ) && self@[self.entries@[j].0@] == self.entries@[j].1,
                forall|j: int| 0 <= j < i ==> (#[trigger] self.entries@[j]).0@ != k@,
            decreases self.entries@.len() - i,
        {
            if is_text(key.as_slice(), self.entries[i].0.as_str()) {
                return Some(i);
            }
            i += 1;
        }
        None
    }

    /// The value of the key `k`.
    pub fn get(&self, k: &str) -> (r: Option<&V>)
        ensures
            match r {
                Some(v) => self@.contains_key(k@) && *v == self@[k@],
                None => !self@.contains_key(k@),
            },
    {
        match self.position(k) {
            Some(i) => Some(&self.entries[i].1),
            None => None,
        }
    }

    /// Whether the key `k` has a value.
    pub fn contains(&self, k: &str) -> (r: bool)
        ensures
            r == self@.contains_key(k@),
    {
        self.position(k).is_some()
    }

    /// The key at position `i` and its value.
    pub fn entry(&self, i: usize) -> (r: (&str, &V))
        requires
            i < self.order().len(),
        ensures
            r.0@ == self.order()[i as int],
            self@.contains_key(r.0@),
            *r.1 == self@[r.0@],
    {
        proof {
            use_type_invariant(self);
            self.lemma_view();
        }
        (self.entries[i].0.as_str(), &self.entries[i].1)
    }

    /// Gives the key `k` the value `v`.
    pub fn insert(&mut self, k: &str, v: V)
        ensures
            final(self)@ == old(self)@.insert(k@, v),
            final(self).order() == (if old(self)@.contains_key(k@) {
                old(self).order()
            } else {
                old(self).order().push(k@)
            }),
    {
        proof {
            use_type_invariant(&*self);
            self.lemma_view();
        }
        let at = self.position(k);
        let ghost before = self.entries@;
        let key = k.to_string();
        match at {
            Some(i) => {
                let mut entries: Vec<(String, V)> = Vec::new();
                std::mem::swap(&mut entries, &mut self.entries);
                entries.set(i, (key, v));
                self.entries = entries;
            },
            None => {
                let mut entries: Vec<(String, V)> = Vec::new();
                std::mem::swap(&mut entries, &mut self.entries);
                entries.push((key, v));
                self.entries = entries;
            },
        }
        proof {
            self.lemma_view();
            let e = self.entries@;
            assert forall|x: Seq<char>| self@.contains_key(x) == old(self)@.insert(
                k@,
                v,
            ).contains_key(x) by {
                if self@.contains_key(x) {
                    let j = choose|j: int| 0 <= j < e.len() && e[j].0@ == x;
                    if j < before.len() {
                        assert(before[j].0@ == x);
                    }
                }
                if old(self)@.contains_key(x) {
                    let j = choose|j: int| 0 <= j < before.len() && before[j].0@ == x;
                    assert(e[j].0@ == x);
                }
                if x == k@ {
                    let j = match at {
                        Some(i) => i as int,
                        None => before.len() as int,
                    };
                    assert(e[j].0@ == x);
                }
            }
            assert forall|x: Seq<char>| self@.contains_key(x) implies self@[x] == old(
                self,
            )@.insert(k@, v)[x] by {
                let j = choose|j: int| 0 <= j < e.len() && e[j].0@ == x;
                if j < before.len() {
                    assert(before[j].0@ == x);
                }
            }
            assert(self@ =~= old(self)@.insert(k@, v));
            assert(self.order() =~= (if old(self)@.contains_key(k@) {
                old(self).order()
            } else {
                old(self).order().push(k@)
            }));
        }
    }

    /// Takes the key `k` out of the table.
    pub fn remove(&mut self, k: &str) -> (r: Option<V>)
        ensures
            final(self)@ == old(self)@.remove(k@),
            match r {
                Some(v) => old(self)@.contains_key(k@) && v == old(self)@[k@],
                None => !old(self)@.contains_key(k@),
            },
    {
        proof {
            use_type_invariant(&*self);
            self.lemma_view();
        }
        let ghost before = self.entries@;
        match self.position(k) {
            Some(i) => {
                let mut entries: Vec<(String, V)> = Vec::new();
                std::mem::swap(&mut entries, &mut self.entries);
                let (_, v) = entries.remove(i);
                self.entries = entries;
                proof {
                    self.lemma_view();
                    let e = self.entries@;
                    assert forall|x: Seq<char>| self@.contains_key(x) == old(self)@.remove(
                        k@,
                    ).contains_key(x) by {
                        if self@.contains_key(x) {
                            let j = choose|j: int| 0 <= j < e.len() && e[j].0@ == x;
                            let b = if j < i {
                                j
                            } else {
                                j + 1
                            };
                            assert(before[b].0@ == x);
                            assert(b != i);
                        }
                        if old(self)@.contains_key(x) && x != k@ {
                            let j = choose|j: int| 0 <= j < before.len() && before[j].0@ == x;
                            let b = if j < i {
                                j
                            } else {
                                j - 1
                            };
                            assert(e[b].0@ == x);
                        }
                    }
                    assert forall|x: Seq<char>| self@.contains_key(x) implies self@[x] == old(
                        self,
                    )@.remove(k@)[x] by {
                        let j = choose|j: int| 0 <= j < e.len() && e[j].0@ == x;
                        let b = if j < i {
                            j
                        } else {
                            j + 1
                        };
                        assert(before[b].0@ == x);
                    }
                    assert(self@ =~= old(self)@.remove(k@));
                }
                Some(v)
            },
            None => {
                assert(self@ =~= old(self)@.remove(k@));
                None
            },
        }
    }

    /// Takes every key out of the table.
    pub fn clear(&mut self)
        ensures
            final(self)@ == Map::<Seq<char>, V>::empty(),
            final(self).order() == Seq::<Seq<char>>::empty(),
    {
        self.entries = Vec::new();
        assert(self@ =~= Map::<Seq<char>, V>::empty());
        assert(self.order() =~= Seq::<Seq<char>>::empty());
    }
}

/// A table from texts to texts.
#[derive(Debug)]
pub struct TextTable {
    table: Table<String>,
}

/// The texts of a table's values.
pub open spec fn value_texts(m: Map<Seq<char>, String>) -> Map<Seq<char>, Seq<char>> {
    m.map_values(|s: String| s@)
}

impl View for TextTable {
    type V = Map<Seq<char>, Seq<char>>;

    closed spec fn view(&self) -> Map<Seq<char>, Seq<char>> {
        value_texts(self.table@)
    }
}

impl TextTable {
    /// The keys, in the order in which they were added.
    pub closed spec fn order(&self) -> Seq<Seq<char>> {
        self.table.order()
    }

    /// An empty table.
    pub fn new() -> (t: Self)
        ensures
            t@ == Map::<Seq<char>, Seq<char>>::empty(),
            t.order() == Seq::<Seq<char>>::empty(),
    {
        let t = TextTable { table: Table::new() };
        assert(t@ =~= Map::<Seq<char>, Seq<char>>::empty());
        t
    }

    /// The number of keys.
    pub fn len(&self) -> (n: usize)
        ensures
            n == self@.len(),
            n == self.order().len(),
            self@.dom().finite(),
            self.order().no_duplicates(),
            self.order().to_set() == self@.dom(),
    {
        assert(self@.dom() =~= self.table@.dom());
        self.table.len()
    }

    /// The value of the key `k`.
    pub fn get(&self, k: &str) -> (r: Option<&str>)
        ensures
            match r {
                Some(v) => self@.contains_key(k@) && v@ == self@[k@],
                None => !self@.contains_key(k@),
            },
    {
        match self.table.get(k) {
            Some(v) => Some(v.as_str()),
            None => None,
        }
    }

    /// Whether the key `k` has a value.
    pub fn contains(&self, k: &str) -> (r: bool)
        ensures
            r == self@.contains_key(k@),
    {
        self.table.contains(k)
    }

    /// The key at position `i` and its value.
    pub fn entry(&self, i: usize) -> (r: (&str, &str))
        requires
            i < self.order().len(),
        ensures
            r.0@ == self.order()[i as int],
            self@.contains_key(r.0@),
            r.1@ == self@[r.0@],
    {
        let (k, v) = self.table.entry(i);
        (k, v.as_str())
    }

    /// Gives the key `k` the value `v`.
    pub fn insert(&mut self, k: &str, v: &str)
        ensures
            final(self)@ == old(self)@.insert(k@, v@),
            final(self).order() == (if old(self)@.contains_key(k@) {
                old(self).order()
            } else {
                old(self).order().push(k@)
            }),
    {
        self.table.insert(k, v.to_string());
        assert(self@ =~= old(self)@.insert(k@, v@));
    }

    /// Takes the key `k` out of the table.
    pub fn remove(&mut self, k: &str)
        ensures
            final(self)@ == old(self)@.remove(k@),
    {
        self.table.remove(k);
        assert(self@ =~= old(self)@.remove(k@));
    }

    /// Takes every key out of the table.
    pub fn clear(&mut self)
        ensures
            final(self)@ == Map::<Seq<char>, Seq<char>>::empty(),
    {
        self.table.clear();
        assert(self@ =~= Map::<Seq<char>, Seq<char>>::empty());
    }
}

impl Clone for TextTable {
    fn clone(&self) -> (r: Self)
        ensures
            r@ == self@,
    {
        let mut r = TextTable::new();
        let n: usize = self.len();
        let mut i: usize = 0;
        while i < n
            invariant
                i <= n,
                n == self.order().len(),
                forall|k: Seq<char>|
                    r@.contains_key(k) == self.order().take(i as int).contains(k),
                forall|k: Seq<char>|
                    r@.contains_key(k) ==> self@.contains_key(k) && r@[k] == self@[k],
            decreases n - i,
        {
            let (k, v) = self.entry(i);
            r.insert(k, v);
            let ghost a = self.order().take(i as int);
            let ghost b = self.order().take(i + 1);
            assert(b =~= a.push(k@));
            assert forall|x: Seq<char>| r@.contains_key(x) == b.contains(x) by {
                if b.contains(x) {
                    let j = choose|j: int| 0 <= j < b.len() && b[j] == x;
                    if j < i {
                        assert(a[j] == x);
                    }
                }
                if a.contains(x) {
                    let j = choose|j: int| 0 <= j < a.len() && a[j] == x;
                    assert(b[j] == x);
                }
                assert(b[i as int] == k@);
            }
            i += 1;
        }
        assert(self.order().take(n as int) =~= self.order());
        assert(r@ =~= self@) by {
            assert forall|k: Seq<char>| r@.contains_key(k) == self@.contains_key(k) by {
                assert(self.order().to_set().contains(k) == self@.dom().contains(k));
            }
        }
        r
    }
}

} // verus!
