//! A map from names to values, for tables of the size of a show.

use crate::text::str_eq;
use vstd::prelude::*;

verus! {

/// A map from names to values.
#[derive(Debug)]
pub struct StrMap<V> {
    entries: Vec<(String, V)>,
}

/// Where `key` is among `entries`, from `i` on; the length when it is not.
spec fn index_of<V>(entries: Seq<(String, V)>, key: Seq<char>, i: int) -> int
    decreases entries.len() - i,
{
    if i < 0 || i >= entries.len() {
        entries.len() as int
    } else if entries[i].0@ == key {
        i
    } else {
        index_of(entries, key, i + 1)
    }
}

proof fn lemma_index_of<V>(entries: Seq<(String, V)>, key: Seq<char>, i: int)
    requires
        0 <= i <= entries.len(),
    ensures
        i <= index_of(entries, key, i) <= entries.len(),
        index_of(entries, key, i) < entries.len() ==> entries[index_of(entries, key, i)].0@ == key,
        forall|k: int| i <= k < index_of(entries, key, i) ==> (#[trigger] entries[k]).0@ != key,
    decreases entries.len() - i,
{
    if i < entries.len() && entries[i].0@ != key {
        lemma_index_of(entries, key, i + 1);
    }
}

impl<V> View for StrMap<V> {
    type V = Map<Seq<char>, V>;

    closed spec fn view(&self) -> Map<Seq<char>, V> {
        Map::new(
            |key: Seq<char>| index_of(self.entries@, key, 0) < self.entries@.len(),
            |key: Seq<char>| self.entries@[index_of(self.entries@, key, 0)].1,
        )
    }
}

impl<V> StrMap<V> {
    /// No name occurs twice.
    pub closed spec fn wf(self) -> bool {
        forall|i: int, j: int|
            0 <= i < j < self.entries@.len() ==> (#[trigger] self.entries@[i]).0@ != (
            #[trigger] self.entries@[j]).0@
    }

    /// The names and values in the order the names first came.
    pub closed spec fn listed(self) -> Seq<(Seq<char>, V)> {
        Seq::new(self.entries@.len(), |i: int| (self.entries@[i].0@, self.entries@[i].1))
    }

    /// The list and the map are the same thing: every entry is in the map, and
    /// everything in the map is an entry.
    pub proof fn lemma_listed(self)
        requires
            self.wf(),
        ensures
            forall|i: int|
                0 <= i < self.listed().len() ==> self@.dom().contains(
                    (#[trigger] self.listed()[i]).0,
                ) && self@[self.listed()[i].0] == self.listed()[i].1,
            forall|key: Seq<char>| #[trigger]
                self@.dom().contains(key) ==> exists|i: int|
                    0 <= i < self.listed().len() && (#[trigger] self.listed()[i]).0 == key,
            forall|i: int, j: int|
                0 <= i < j < self.listed().len() ==> (#[trigger] self.listed()[i]).0 != (
                #[trigger] self.listed()[j]).0,
    {
        assert forall|i: int| 0 <= i < self.listed().len() implies self@.dom().contains(
            (#[trigger] self.listed()[i]).0,
        ) && self@[self.listed()[i].0] == self.listed()[i].1 by {
            let key = self.listed()[i].0;
            lemma_index_of(self.entries@, key, 0);
            let k = index_of(self.entries@, key, 0);
            if k < i {
                assert(self.entries@[k].0@ == self.entries@[i].0@);
            }
            assert(k == i);
        }
        assert forall|key: Seq<char>| #[trigger] self@.dom().contains(key) implies exists|i: int|
            0 <= i < self.listed().len() && (#[trigger] self.listed()[i]).0 == key by {
            lemma_index_of(self.entries@, key, 0);
            let k = index_of(self.entries@, key, 0);
            assert(self.listed()[k].0 == key);
        }
    }

    /// A map with no names.
    pub fn new() -> (m: StrMap<V>)
        ensures
            m.wf(),
            m@ == Map::<Seq<char>, V>::empty(),
            m.listed().len() == 0,
    {
        let m: StrMap<V> = StrMap { entries: Vec::new() };
        assert(m@ =~= Map::empty());
        m
    }

    /// Names in the map.
    pub fn len(&self) -> (n: usize)
        ensures
            n == self.listed().len(),
    {
        self.entries.len()
    }

    /// The `i`th name.
    pub fn key_at(&self, i: usize) -> (k: &str)
        requires
            i < self.listed().len(),
        ensures
            k@ == self.listed()[i as int].0,
    {
        self.entries[i].0.as_str()
    }

    /// The `i`th value.
    pub fn value_at(&self, i: usize) -> (v: &V)
        requires
            i < self.listed().len(),
        ensures
            *v == self.listed()[i as int].1,
    {
        &self.entries[i].1
    }

    fn find(&self, key: &str) -> (r: usize)
        ensures
            r == index_of(self.entries@, key@, 0),
            r <= self.entries@.len(),
    {
        let n: usize = self.entries.len();
        let mut i: usize = 0;
        while i < n
            invariant
                i <= n == self.entries@.len(),
                index_of(self.entries@, key@, 0) == index_of(self.entries@, key@, i as int),
            decreases n - i,
        {
            if str_eq(self.entries[i].0.as_str(), key) {
                return i;
            }
            i = i + 1;
        }
        n
    }

    /// The value of a name.
    pub fn get(&self, key: &str) -> (r: Option<&V>)
        ensures
            match r {
                Some(v) => self@.dom().contains(key@) && self@[key@] == *v,
                None => !self@.dom().contains(key@),
            },
    {
        let i: usize = self.find(key);
        if i < self.entries.len() {
            Some(&self.entries[i].1)
        } else {
            None
        }
    }

    /// Whether the map has a name.
    pub fn has(&self, key: &str) -> (r: bool)
        ensures
            r == self@.dom().contains(key@),
    {
        self.find(key) < self.entries.len()
    }

    /// Give a name its value. An earlier one is replaced where it stands; a new
    /// name comes behind all others.
    pub fn insert(&mut self, key: &str, value: V)
        requires
            old(self).wf(),
        ensures
            final(self).wf(),
            final(self)@ == old(self)@.insert(key@, value),
            forall|i: int|
                0 <= i < old(self).listed().len() && (#[trigger] old(self).listed()[i]).0 == key@
                    ==> final(self).listed() == old(self).listed().update(i, (key@, value)),
            !old(self)@.dom().contains(key@) ==> final(self).listed() == old(self).listed().push(
                (key@, value),
            ),
    {
        let ghost before = self.entries@;
        let ghost old_map = self@;
        let ghost old_list = self.listed();
        let i: usize = self.find(key);
        proof {
            lemma_index_of(before, key@, 0);
        }
        if i < self.entries.len() {
            self.entries.set(i, (key.to_owned(), value));
        } else {
            self.entries.push((key.to_owned(), value));
        }
        proof {
            let after = self.entries@;
            let want = old_map.insert(key@, value);
            assert forall|k: Seq<char>|
                #![trigger self@.dom().contains(k)]
                #![trigger want.dom().contains(k)]
                #![trigger self@[k]]
                #![trigger want[k]]
                self@.dom().contains(k) == want.dom().contains(k) && (self@.dom().contains(k)
                    ==> self@[k] == want[k]) by {
                lemma_index_of(before, k, 0);
                lemma_index_of(after, k, 0);
                let a = index_of(before, k, 0);
                let b = index_of(after, k, 0);
                if k == key@ {
                    assert(after[i as int].0@ == key@);
                    assert(b == i);
                } else {
                    if a < before.len() {
                        assert(after[a].0@ == k);
                        if b < a {
                            assert(after[b].0@ == before[b].0@);
                        }
                        assert(b == a);
                    } else {
                        if b < after.len() {
                            if b < before.len() && b != i {
                                assert(after[b] == before[b]);
                            }
                        }
                    }
                }
            }
            assert(self@ =~= old_map.insert(key@, value));
            assert forall|k: int|
                0 <= k < old_list.len() && (#[trigger] old_list[k]).0 == key@ implies self.listed()
                == old_list.update(k, (key@, value)) by {
                assert(before[k].0@ == key@);
                assert(k == i);
                assert(self.listed() =~= old_list.update(k, (key@, value)));
            }
            if i == before.len() {
                assert(self.listed() =~= old_list.push((key@, value)));
            }
            assert forall|x: int, y: int| 0 <= x < y < after.len() implies (#[trigger] after[x]).0@
                != (#[trigger] after[y]).0@ by {
                let kx = if x == i {
                    key@
                } else {
                    before[x].0@
                };
                if y < before.len() {
                    if x == i {
                        assert(before[i as int].0@ == key@);
                    }
                    assert(before[x].0@ != before[y].0@);
                } else {
                    assert(before[x].0@ != key@);
                }
            }
        }
    }
}

} // verus!
