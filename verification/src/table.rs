//! A table of values keyed by text (a document URI), with no key twice.

use vstd::prelude::*;

use crate::text::same_text;

verus! {

/// Entries keyed by text; every key occurs once.
pub struct Table<V> {
    entries: Vec<(String, V)>,
}

/// An index at which `key` stands in `s`.
pub open spec fn key_at<V>(s: Seq<(String, V)>, i: int, key: Seq<char>) -> bool {
    0 <= i < s.len() && s[i].0@ == key
}

impl<V> Table<V> {
    /// No key occurs twice.
    #[verifier::type_invariant]
    spec fn unique_keys(self) -> bool {
        forall|i: int, j: int|
            0 <= i < self.entries@.len() && 0 <= j < self.entries@.len() && i != j ==> #[trigger] self.entries@[i].0@
                != #[trigger] self.entries@[j].0@
    }

    /// The table as a map from key text to value.
    pub closed spec fn view(&self) -> Map<Seq<char>, V> {
        Map::new(
            |k: Seq<char>| exists|i: int| key_at(self.entries@, i, k),
            |k: Seq<char>| self.entries@[choose|i: int| key_at(self.entries@, i, k)].1,
        )
    }

    /// An empty table.
    pub fn new() -> (t: Self)
        ensures
            t@ == Map::<Seq<char>, V>::empty(),
    {
        let t = Table { entries: Vec::new() };
        assert(t@ =~= Map::<Seq<char>, V>::empty());
        t
    }

    fn position(&self, key: &str) -> (r: Option<usize>)
        ensures
            r matches Some(i) ==> key_at(self.entries@, i as int, key@),
            r is None ==> !self@.dom().contains(key@),
    {
        let mut i: usize = 0;
        while i < self.entries.len()
            invariant
                i <= self.entries@.len(),
                forall|j: int| 0 <= j < i ==> self.entries@[j].0@ != key@,
            decreases self.entries@.len() - i,
        {
            if same_text(self.entries[i].0.as_str(), key) {
                return Some(i);
            }
            i += 1;
        }
        None
    }

    /// The value of `key`, if the table has one.
    pub fn get(&self, key: &str) -> (r: Option<&V>)
        ensures
            r matches Some(v) ==> self@.dom().contains(key@) && *v == self@[key@],
            r is None ==> !self@.dom().contains(key@),
    {
        proof {
            use_type_invariant(self);
        }
        match self.position(key) {
            Some(i) => {
                proof {
                    let c = choose|j: int| key_at(self.entries@, j, key@);
                    assert(c == i);
                }
                Some(&self.entries[i].1)
            },
            None => None,
        }
    }

    /// Sets the value of `key`.
    pub fn insert(&mut self, key: String, value: V)
        ensures
            final(self)@ == old(self)@.insert(key@, value),
    {
        proof {
            use_type_invariant(&*self);
        }
        let ghost old_entries = self.entries@;
        let ghost k = key@;
        match self.position(key.as_str()) {
            Some(i) => {
                let mut entries: Vec<(String, V)> = Vec::new();
                std::mem::swap(&mut entries, &mut self.entries);
                entries.set(i, (key, value));
                let ghost new_entries = entries@;
                assert forall|a: int, b: int|
                    0 <= a < new_entries.len() && 0 <= b < new_entries.len() && a != b implies #[trigger] new_entries[a].0@
                    != #[trigger] new_entries[b].0@ by {
                    assert(old_entries[a].0@ != old_entries[b].0@);
                }
                self.entries = entries;
                proof {
                    assert forall|q: Seq<char>| #[trigger] self@.dom().contains(q) <==> old(self)@.insert(k, value).dom().contains(q) by {
                        if old(self)@.dom().contains(q) {
                            let j = choose|j: int| key_at(old_entries, j, q);
                            assert(key_at(new_entries, j, q) || q == k);
                        }
                        if q == k {
                            assert(key_at(new_entries, i as int, q));
                        }
                        if self@.dom().contains(q) {
                            let j = choose|j: int| key_at(new_entries, j, q);
                            assert(key_at(old_entries, j, q) || q == k);
                        }
                    }
                    assert forall|q: Seq<char>| #[trigger] self@.dom().contains(q) implies self@[q] == old(self)@.insert(k, value)[q] by {
                        let j = choose|j: int| key_at(new_entries, j, q);
                        if q == k {
                            assert(j == i);
                        } else {
                            assert(key_at(old_entries, j, q));
                            let j2 = choose|j2: int| key_at(old_entries, j2, q);
                            assert(j2 == j);
                        }
                    }
                    assert(self@ =~= old(self)@.insert(k, value));
                }
            },
            None => {
                let mut entries: Vec<(String, V)> = Vec::new();
                std::mem::swap(&mut entries, &mut self.entries);
                entries.push((key, value));
                let ghost new_entries = entries@;
                assert forall|a: int, b: int|
                    0 <= a < new_entries.len() && 0 <= b < new_entries.len() && a != b implies #[trigger] new_entries[a].0@
                    != #[trigger] new_entries[b].0@ by {
                    if a < old_entries.len() && b < old_entries.len() {
                        assert(old_entries[a].0@ != old_entries[b].0@);
                    } else if a < old_entries.len() {
                        assert(!key_at(old_entries, a, k));
                    } else {
                        assert(!key_at(old_entries, b, k));
                    }
                }
                self.entries = entries;
                proof {
                    let last = old_entries.len() as int;
                    assert forall|q: Seq<char>| #[trigger] self@.dom().contains(q) <==> old(self)@.insert(k, value).dom().contains(q) by {
                        if old(self)@.dom().contains(q) {
                            let j = choose|j: int| key_at(old_entries, j, q);
                            assert(key_at(new_entries, j, q));
                        }
                        if q == k {
                            assert(key_at(new_entries, last, q));
                        }
                        if self@.dom().contains(q) {
                            let j = choose|j: int| key_at(new_entries, j, q);
                            if j < last {
                                assert(key_at(old_entries, j, q));
                            }
                        }
                    }
                    assert forall|q: Seq<char>| #[trigger] self@.dom().contains(q) implies self@[q] == old(self)@.insert(k, value)[q] by {
                        let j = choose|j: int| key_at(new_entries, j, q);
                        if q == k {
                            assert(key_at(new_entries, last, q));
                            assert(j == last);
                        } else {
                            assert(j < last);
                            assert(key_at(old_entries, j, q));
                            let j2 = choose|j2: int| key_at(old_entries, j2, q);
                            assert(j2 == j);
                        }
                    }
                    assert(self@ =~= old(self)@.insert(k, value));
                }
            },
        }
    }

    /// Removes `key` and its value, if present.
    pub fn remove(&mut self, key: &str)
        ensures
            final(self)@ == old(self)@.remove(key@),
    {
        proof {
            use_type_invariant(&*self);
        }
        let ghost old_entries = self.entries@;
        let ghost k = key@;
        match self.position(key) {
            Some(i) => {
                let mut entries: Vec<(String, V)> = Vec::new();
                std::mem::swap(&mut entries, &mut self.entries);
                entries.remove(i);
                let ghost new_entries = entries@;
                assert(new_entries =~= old_entries.remove(i as int));
                assert forall|a: int, b: int|
                    0 <= a < new_entries.len() && 0 <= b < new_entries.len() && a != b implies #[trigger] new_entries[a].0@
                    != #[trigger] new_entries[b].0@ by {
                    let oa = if a < i { a } else { a + 1 };
                    let ob = if b < i { b } else { b + 1 };
                    assert(new_entries[a] == old_entries[oa]);
                    assert(new_entries[b] == old_entries[ob]);
                    assert(old_entries[oa].0@ != old_entries[ob].0@);
                }
                self.entries = entries;
                proof {
                    assert forall|q: Seq<char>| #[trigger] self@.dom().contains(q) <==> old(self)@.remove(k).dom().contains(q) by {
                        if old(self)@.dom().contains(q) && q != k {
                            let j = choose|j: int| key_at(old_entries, j, q);
                            assert(j != i);
                            let nj = if j < i { j } else { j - 1 };
                            assert(key_at(new_entries, nj, q));
                        }
                        if self@.dom().contains(q) {
                            let j = choose|j: int| key_at(new_entries, j, q);
                            let oj = if j < i { j } else { j + 1 };
                            assert(key_at(old_entries, oj, q));
                            assert(oj != i);
                        }
                    }
                    assert forall|q: Seq<char>| #[trigger] self@.dom().contains(q) implies self@[q] == old(self)@.remove(k)[q] by {
                        let j = choose|j: int| key_at(new_entries, j, q);
                        let oj = if j < i { j } else { j + 1 };
                        assert(key_at(old_entries, oj, q));
                        let j2 = choose|j2: int| key_at(old_entries, j2, q);
                        assert(j2 == oj);
                    }
                    assert(self@ =~= old(self)@.remove(k));
                }
            },
            None => {
                assert(old(self)@ =~= old(self)@.remove(k));
            },
        }
    }
}

} // verus!
