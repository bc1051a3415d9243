//! A small table from texts to values.

use vstd::prelude::*;
use crate::text::same;

verus! {

/// A table from texts to values. Where a key stands more than once, its last entry counts.
#[derive(Debug)]
pub struct Table<V> {
    entries: Vec<(String, V)>,
}

/// What a list of entries maps each key to.
pub open spec fn entries_map<V: View>(s: Seq<(String, V)>) -> Map<Seq<char>, V::V>
    decreases s.len(),
{
    if s.len() == 0 {
        Map::empty()
    } else {
        entries_map(s.drop_last()).insert(s.last().0@, s.last().1@)
    }
}

proof fn lemma_dom<V: View>(s: Seq<(String, V)>, k: Seq<char>)
    ensures
        entries_map(s).contains_key(k) <==> exists|i: int|
            0 <= i < s.len() && (#[trigger] s[i]).0@ == k,
    decreases s.len(),
{
    if s.len() > 0 {
        let r = s.drop_last();
        lemma_dom(r, k);
        if s.last().0@ == k {
            assert(s[s.len() - 1].0@ == k);
        } else if entries_map(r).contains_key(k) {
            let i = choose|i: int| 0 <= i < r.len() && (#[trigger] r[i]).0@ == k;
            assert(s[i].0@ == k);
        } else {
            assert forall|i: int| 0 <= i < s.len() implies (#[trigger] s[i]).0@ != k by {
                if i < r.len() {
                    assert(r[i].0@ != k);
                }
            }
        }
    }
}

proof fn lemma_remove_entry<V: View>(s: Seq<(String, V)>, i: int)
    requires
        0 <= i < s.len(),
    ensures
        entries_map(s.remove(i)).remove(s[i].0@) == entries_map(s).remove(s[i].0@),
    decreases s.len(),
{
    let k = s[i].0@;
    if i == s.len() - 1 {
        assert(s.remove(i) =~= s.drop_last());
        assert(entries_map(s).remove(k) =~= entries_map(s.drop_last()).remove(k));
    } else {
        lemma_remove_entry(s.drop_last(), i);
        let t = s.remove(i);
        assert(t.drop_last() =~= s.drop_last().remove(i));
        assert(t.last() == s.last());
        let (k2, v2) = (s.last().0@, s.last().1@);
        let a = entries_map(t.drop_last());
        let b = entries_map(s.drop_last());
        assert(a.remove(k) == b.remove(k));
        assert(a.insert(k2, v2).remove(k) =~= b.insert(k2, v2).remove(k)) by {
            assert forall|x: Seq<char>| x != k && x != k2 implies #[trigger] a.contains_key(x)
                == b.contains_key(x) && a[x] == b[x] by {
                assert(a.remove(k).contains_key(x) == b.remove(k).contains_key(x));
                assert(a.remove(k)[x] == b.remove(k)[x]);
            }
        }
    }
}

impl<V: View> View for Table<V> {
    type V = Map<Seq<char>, V::V>;

    closed spec fn view(&self) -> Map<Seq<char>, V::V> {
        entries_map(self.entries@)
    }
}

impl<V: View> Table<V> {
    /// An empty table.
    pub fn new() -> (r: Table<V>)
        ensures
            r@ == Map::<Seq<char>, V::V>::empty(),
    {
        Table { entries: Vec::new() }
    }

    /// The value of a key, if it has one.
    pub fn get(&self, key: &str) -> (r: Option<&V>)
        ensures
            match r {
                Some(v) => self@.contains_key(key@) && self@[key@] == v@,
                None => !self@.contains_key(key@),
            },
    {
        let mut i: usize = self.entries.len();
        let ghost s = self.entries@;
        assert(s.take(s.len() as int) =~= s);
        while i > 0
            invariant
                i <= self.entries@.len(),
                s == self.entries@,
                entries_map(s).contains_key(key@) == entries_map(s.take(i as int)).contains_key(
                    key@,
                ),
                entries_map(s)[key@] == entries_map(s.take(i as int))[key@],
            decreases i,
        {
            assert(s.take(i as int).drop_last() =~= s.take(i - 1));
            if same(self.entries[i - 1].0.as_str(), key) {
                return Some(&self.entries[i - 1].1);
            }
            i -= 1;
        }
        None
    }

    /// Whether the table has the key.
    pub fn contains_key(&self, key: &str) -> (r: bool)
        ensures
            r == self@.contains_key(key@),
    {
        self.get(key).is_some()
    }

    /// The keys.
    pub fn keys(&self) -> (r: Vec<String>)
        ensures
            forall|k: Seq<char>| #[trigger]
                self@.contains_key(k) <==> exists|i: int|
                    0 <= i < r@.len() && (#[trigger] r@[i])@ == k,
            forall|i: int, j: int|
                0 <= i < j < r@.len() ==> (#[trigger] r@[i])@ != (#[trigger] r@[j])@,
    {
        let mut r: Vec<String> = Vec::new();
        let mut i: usize = 0;
        let ghost s = self.entries@;
        while i < self.entries.len()
            invariant
                i <= self.entries.len(),
                s == self.entries@,
                forall|j: int|
                    0 <= j < i ==> exists|m: int|
                        0 <= m < r@.len() && (#[trigger] r@[m])@ == (#[trigger] s[j]).0@,
                forall|m: int|
                    0 <= m < r@.len() ==> exists|j: int|
                        0 <= j < i && (#[trigger] s[j]).0@ == (#[trigger] r@[m])@,
                forall|a: int, b: int|
                    0 <= a < b < r@.len() ==> (#[trigger] r@[a])@ != (#[trigger] r@[b])@,
            decreases self.entries.len() - i,
        {
            let ghost before = r@;
            if !crate::text::list_has(&r, self.entries[i].0.as_str()) {
                let ghost k = s[i as int].0@;
                r.push(self.entries[i].0.clone());
                proof {
                    assert forall|a: int, b: int| 0 <= a < b < r@.len() implies (#[trigger] r@[a])@
                        != (#[trigger] r@[b])@ by {
                        if b == before.len() {
                            assert(crate::text::texts(before)[a] != k);
                        }
                    }
                    assert(r@[before.len() as int]@ == k);
                    assert forall|j: int| 0 <= j < i + 1 implies exists|m: int|
                        0 <= m < r@.len() && (#[trigger] r@[m])@ == (#[trigger] s[j]).0@ by {
                        if j < i {
                            let m = choose|m: int|
                                0 <= m < before.len() && (#[trigger] before[m])@ == s[j].0@;
                            assert(r@[m]@ == s[j].0@);
                        }
                    }
                    assert forall|m: int| 0 <= m < r@.len() implies exists|j: int|
                        0 <= j < i + 1 && (#[trigger] s[j]).0@ == (#[trigger] r@[m])@ by {
                        if m < before.len() {
                            let j = choose|j: int|
                                0 <= j < i && (#[trigger] s[j]).0@ == before[m]@;
                            assert(s[j].0@ == r@[m]@);
                        } else {
                            assert(s[i as int].0@ == r@[m]@);
                        }
                    }
                }
            } else {
                proof {
                    let m = choose|m: int|
                        0 <= m < crate::text::texts(r@).len() && crate::text::texts(r@)[m]
                            == s[i as int].0@;
                    assert(r@[m]@ == s[i as int].0@);
                }
            }
            i += 1;
        }
        assert forall|k: Seq<char>| #[trigger] self@.contains_key(k) <==> exists|i: int|
            0 <= i < r@.len() && (#[trigger] r@[i])@ == k by {
            lemma_dom(s, k);
            if self@.contains_key(k) {
                let j = choose|j: int| 0 <= j < s.len() && (#[trigger] s[j]).0@ == k;
                let m = choose|m: int| 0 <= m < r@.len() && (#[trigger] r@[m])@ == s[j].0@;
                assert(r@[m]@ == k);
            }
            if exists|i: int| 0 <= i < r@.len() && (#[trigger] r@[i])@ == k {
                let m = choose|m: int| 0 <= m < r@.len() && (#[trigger] r@[m])@ == k;
                let j = choose|j: int| 0 <= j < s.len() && (#[trigger] s[j]).0@ == r@[m]@;
                assert(s[j].0@ == k);
            }
        }
        r
    }

    /// Maps `key` to `value`.
    pub fn insert(&mut self, key: String, value: V)
        ensures
            final(self)@ == old(self)@.insert(key@, value@),
    {
        self.entries.push((key, value));
        assert(self.entries@.drop_last() =~= old(self).entries@);
    }

    /// Takes `key` out of the table; says whether it was there.
    pub fn remove(&mut self, key: &str) -> (r: bool)
        ensures
            final(self)@ == old(self)@.remove(key@),
            r == old(self)@.contains_key(key@),
    {
        let found = self.contains_key(key);
        let mut i: usize = 0;
        while i < self.entries.len()
            invariant
                i <= self.entries@.len(),
                forall|j: int| 0 <= j < i ==> (#[trigger] self.entries@[j]).0@ != key@,
                entries_map(self.entries@).remove(key@) == old(self)@.remove(key@),
            decreases self.entries@.len() - i,
        {
            if same(self.entries[i].0.as_str(), key) {
                proof {
                    lemma_remove_entry(self.entries@, i as int);
                }
                let _ = self.entries.remove(i);
            } else {
                i += 1;
            }
        }
        proof {
            lemma_dom(self.entries@, key@);
            assert(entries_map(self.entries@) =~= entries_map(self.entries@).remove(key@));
        }
        found
    }
}

impl Table<String> {
    /// A table with the same keys and values.
    pub fn duplicate(&self) -> (r: Table<String>)
        ensures
            r@ == self@,
    {
        let mut entries: Vec<(String, String)> = Vec::new();
        let mut i: usize = 0;
        while i < self.entries.len()
            invariant
                i <= self.entries.len(),
                entries@ == self.entries@.take(i as int),
            decreases self.entries.len() - i,
        {
            let pair = (self.entries[i].0.clone(), self.entries[i].1.clone());
            entries.push(pair);
            assert(entries@ =~= self.entries@.take(i + 1));
            i += 1;
        }
        assert(self.entries@.take(self.entries@.len() as int) =~= self.entries@);
        Table { entries }
    }
}

} // verus!
