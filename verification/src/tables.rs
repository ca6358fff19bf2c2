//! Small maps: one from texts, kept in the order of its keys, and one from
//! paths, in which texts that name the same path are one key.

use vstd::prelude::*;
use crate::order;
use crate::paths;
use crate::text;

verus! {

/// A map from texts whose entries stand in the order of their keys.
#[derive(Debug, Clone, PartialEq, Eq)]
pub struct TextMap<V> {
    entries: Vec<(String, V)>,
}

impl<V> TextMap<V> {
    /// The entries in the order of their keys.
    pub closed spec fn listed(&self) -> Seq<(String, V)> {
        self.entries@
    }

    /// Keys are strictly ascending.
    pub open spec fn wf(&self) -> bool {
        forall|i: int, j: int|
            #![trigger self.listed()[i], self.listed()[j]]
            0 <= i < j < self.listed().len() ==> order::text_before(
                self.listed()[i].0@,
                self.listed()[j].0@,
            )
    }

    /// Whether `key` has an entry.
    pub open spec fn has(&self, key: Seq<char>) -> bool {
        exists|i: int| 0 <= i < self.listed().len() && (#[trigger] self.listed()[i]).0@ == key
    }

    /// The value of the entry for `key`.
    pub open spec fn value(&self, key: Seq<char>) -> V {
        let i = choose|i: int|
            0 <= i < self.listed().len() && (#[trigger] self.listed()[i]).0@ == key;
        self.listed()[i].1
    }

    /// The entries as a mathematical map.
    pub open spec fn view(&self) -> Map<Seq<char>, V> {
        Map::new(|key: Seq<char>| self.has(key), |key: Seq<char>| self.value(key))
    }

    /// The entry at `i` is the one that the map holds for its key.
    pub proof fn lemma_entry(&self, i: int)
        requires
            self.wf(),
            0 <= i < self.listed().len(),
        ensures
            self@.contains_key(self.listed()[i].0@),
            self@[self.listed()[i].0@] == self.listed()[i].1,
    {
        let key = self.listed()[i].0@;
        assert(self.has(key));
        let j = choose|j: int|
            0 <= j < self.listed().len() && (#[trigger] self.listed()[j]).0@ == key;
        order::lemma_text_before_irreflexive(key);
        assert(i == j);
    }

    /// A map without entries.
    pub fn new() -> (map: Self)
        ensures
            map.wf(),
            map@ == Map::<Seq<char>, V>::empty(),
            map.listed().len() == 0,
    {
        let map = TextMap { entries: Vec::new() };
        assert(map@ =~= Map::<Seq<char>, V>::empty());
        map
    }

    /// The number of entries.
    pub fn len(&self) -> (n: usize)
        ensures
            n == self.listed().len(),
    {
        self.entries.len()
    }

    /// Whether there is no entry.
    pub fn is_empty(&self) -> (b: bool)
        ensures
            b == (self.listed().len() == 0),
    {
        self.entries.len() == 0
    }

    /// The entry at `i` in key order.
    pub fn entry(&self, i: usize) -> (e: &(String, V))
        requires
            i < self.listed().len(),
        ensures
            *e == self.listed()[i as int],
    {
        &self.entries[i]
    }

    /// The index of the first entry whose key does not come before `key`.
    fn position(&self, key: &str) -> (at: usize)
        requires
            self.wf(),
        ensures
            at <= self.listed().len(),
            forall|k: int|
                0 <= k < at ==> order::text_before((#[trigger] self.listed()[k]).0@, key@),
            at < self.listed().len() ==> !order::text_before(self.listed()[at as int].0@, key@),
    {
        let mut at: usize = 0;
        while at < self.entries.len() && order::comes_before(self.entries[at].0.as_str(), key)
            invariant
                at <= self.listed().len(),
                self.listed() == self.entries@,
                forall|k: int|
                    0 <= k < at ==> order::text_before((#[trigger] self.listed()[k]).0@, key@),
            decreases self.listed().len() - at,
        {
            at += 1;
        }
        at
    }

    /// What the map holds for `key`.
    pub fn get(&self, key: &str) -> (value: Option<&V>)
        requires
            self.wf(),
        ensures
            match value {
                Some(v) => self@.contains_key(key@) && *v == self@[key@],
                None => !self@.contains_key(key@),
            },
    {
        let at = self.position(key);
        if at < self.entries.len() && text::text_eq(self.entries[at].0.as_str(), key) {
            proof {
                self.lemma_entry(at as int);
            }
            Some(&self.entries[at].1)
        } else {
            proof {
                assert forall|k: int| 0 <= k < self.listed().len() implies (
                #[trigger] self.listed()[k]).0@ != key@ by {
                    order::lemma_text_before_irreflexive(key@);
                    if k > at {
                        order::lemma_text_before_total(self.listed()[at as int].0@, key@);
                        order::lemma_text_before_total(self.listed()[k].0@, key@);
                    }
                }
            }
            None
        }
    }

    /// Sets the value for `key`.
    pub fn insert(&mut self, key: &str, value: V)
        requires
            old(self).wf(),
        ensures
            final(self).wf(),
            final(self)@ == old(self)@.insert(key@, value),
            final(self).listed().len() > 0,
    {
        let at = self.position(key);
        let ghost before = *self;
        if at < self.entries.len() && text::text_eq(self.entries[at].0.as_str(), key) {
            self.entries.set(at, (key.to_owned(), value));
        } else {
            self.entries.insert(at, (key.to_owned(), value));
        }
        proof {
            let now = *self;
            order::lemma_text_before_irreflexive(key@);
            assert forall|i: int, j: int|
                #![trigger now.listed()[i], now.listed()[j]]
                0 <= i < j < now.listed().len() implies order::text_before(
                now.listed()[i].0@,
                now.listed()[j].0@,
            ) by {
                before.lemma_order_around(key@, at as int);
                if now.listed().len() == before.listed().len() {
                    if i != at && j != at {
                        assert(before.listed()[i] == now.listed()[i]);
                        assert(before.listed()[j] == now.listed()[j]);
                    } else {
                        assert(before.listed()[i].0@ == now.listed()[i].0@);
                        assert(before.listed()[j].0@ == now.listed()[j].0@);
                    }
                } else {
                    let a = if i < at { i } else { i - 1 };
                    let b = if j < at { j } else { j - 1 };
                    if i != at {
                        assert(before.listed()[a] == now.listed()[i]);
                    }
                    if j != at {
                        assert(before.listed()[b] == now.listed()[j]);
                    }
                }
            }
            assert(now.listed()[at as int].0@ == key@);
            now.lemma_entry(at as int);
            assert forall|k: Seq<char>| #[trigger]
                now@.contains_key(k) == before@.insert(key@, value).contains_key(k) && (
            now@.contains_key(k) ==> now@[k] == before@.insert(key@, value)[k]) by {
                if k != key@ {
                    if before@.contains_key(k) {
                        let i = choose|i: int|
                            0 <= i < before.listed().len() && (#[trigger] before.listed()[i]).0@
                                == k;
                        let i2 = if now.listed().len() == before.listed().len() || i < at {
                            i
                        } else {
                            i + 1
                        };
                        assert(now.listed()[i2] == before.listed()[i]);
                        now.lemma_entry(i2);
                        before.lemma_entry(i);
                    }
                    if now@.contains_key(k) {
                        let i = choose|i: int|
                            0 <= i < now.listed().len() && (#[trigger] now.listed()[i]).0@ == k;
                        let i2 = if now.listed().len() == before.listed().len() || i < at {
                            i
                        } else {
                            i - 1
                        };
                        assert(before.listed()[i2] == now.listed()[i]);
                    }
                }
            }
            assert(now@ =~= before@.insert(key@, value));
        }
    }

    /// Where the entries before `at` come before `key` and the one at `at` does
    /// not, the entries that differ from `key` behind `at` come after it.
    proof fn lemma_order_around(&self, key: Seq<char>, at: int)
        requires
            self.wf(),
            0 <= at <= self.listed().len(),
            at < self.listed().len() ==> !order::text_before(self.listed()[at].0@, key),
        ensures
            forall|k: int|
                at <= k < self.listed().len() && (#[trigger] self.listed()[k]).0@ != key
                    ==> order::text_before(key, self.listed()[k].0@),
    {
        assert forall|k: int|
            at <= k < self.listed().len() && (#[trigger] self.listed()[k]).0@ != key implies order::text_before(
        key, self.listed()[k].0@) by {
            order::lemma_text_before_total(self.listed()[at].0@, key);
            order::lemma_text_before_total(self.listed()[k].0@, key);
            if k > at {
                if order::text_before(key, self.listed()[at].0@) {
                    order::lemma_text_before_transitive(
                        key,
                        self.listed()[at].0@,
                        self.listed()[k].0@,
                    );
                }
            }
        }
    }
}

/// A map from paths.
#[derive(Debug, PartialEq, Eq)]
pub struct PathMap<V> {
    entries: Vec<(String, V)>,
}

impl<V> PathMap<V> {
    /// The entries in the order of their insertion.
    pub closed spec fn listed(&self) -> Seq<(String, V)> {
        self.entries@
    }

    /// No path has two entries.
    pub open spec fn wf(&self) -> bool {
        forall|i: int, j: int|
            #![trigger self.listed()[i], self.listed()[j]]
            0 <= i < j < self.listed().len() ==> !paths::same(
                self.listed()[i].0@,
                self.listed()[j].0@,
            )
    }

    /// Whether the path with these components has an entry.
    pub open spec fn has(&self, key: Seq<Seq<char>>) -> bool {
        exists|i: int|
            0 <= i < self.listed().len() && paths::components((#[trigger] self.listed()[i]).0@)
                == key
    }

    /// The value of the entry for the path with these components.
    pub open spec fn value(&self, key: Seq<Seq<char>>) -> V {
        let i = choose|i: int|
            0 <= i < self.listed().len() && paths::components((#[trigger] self.listed()[i]).0@)
                == key;
        self.listed()[i].1
    }

    /// The entries as a mathematical map from components.
    pub open spec fn view(&self) -> Map<Seq<Seq<char>>, V> {
        Map::new(|key: Seq<Seq<char>>| self.has(key), |key: Seq<Seq<char>>| self.value(key))
    }

    /// The entry at `i` is the one that the map holds for its path.
    pub proof fn lemma_entry(&self, i: int)
        requires
            self.wf(),
            0 <= i < self.listed().len(),
        ensures
            self@.contains_key(paths::components(self.listed()[i].0@)),
            self@[paths::components(self.listed()[i].0@)] == self.listed()[i].1,
    {
        let key = paths::components(self.listed()[i].0@);
        assert(self.has(key));
        let j = choose|j: int|
            0 <= j < self.listed().len() && paths::components((#[trigger] self.listed()[j]).0@)
                == key;
        assert(i == j);
    }

    /// A map without entries.
    pub fn new() -> (map: Self)
        ensures
            map.wf(),
            map@ == Map::<Seq<Seq<char>>, V>::empty(),
            map.listed().len() == 0,
    {
        let map = PathMap { entries: Vec::new() };
        assert(map@ =~= Map::<Seq<Seq<char>>, V>::empty());
        map
    }

    /// The number of entries.
    pub fn len(&self) -> (n: usize)
        ensures
            n == self.listed().len(),
    {
        self.entries.len()
    }

    /// The entry at `i` in the order of insertion.
    pub fn entry(&self, i: usize) -> (e: &(String, V))
        requires
            i < self.listed().len(),
        ensures
            *e == self.listed()[i as int],
    {
        &self.entries[i]
    }

    /// The index of the entry for `path`, or the number of entries.
    fn position(&self, path: &str) -> (at: usize)
        ensures
            at <= self.listed().len(),
            forall|k: int|
                0 <= k < at ==> !paths::same((#[trigger] self.listed()[k]).0@, path@),
            at < self.listed().len() ==> paths::same(self.listed()[at as int].0@, path@),
    {
        let own = paths::path_components(path);
        let mut at: usize = 0;
        while at < self.entries.len() && !paths::same_texts(
            &paths::path_components(self.entries[at].0.as_str()),
            &own,
        )
            invariant
                at <= self.listed().len(),
                self.listed() == self.entries@,
                text::views(own@) == paths::components(path@),
                forall|k: int|
                    0 <= k < at ==> !paths::same((#[trigger] self.listed()[k]).0@, path@),
            decreases self.listed().len() - at,
        {
            at += 1;
        }
        at
    }

    /// What the map holds for `path`.
    pub fn get(&self, path: &str) -> (value: Option<&V>)
        requires
            self.wf(),
        ensures
            match value {
                Some(v) => self@.contains_key(paths::components(path@)) && *v
                    == self@[paths::components(path@)],
                None => !self@.contains_key(paths::components(path@)),
            },
    {
        let at = self.position(path);
        if at < self.entries.len() {
            proof {
                self.lemma_entry(at as int);
            }
            Some(&self.entries[at].1)
        } else {
            None
        }
    }

    /// Sets the value for `path`.
    pub fn insert(&mut self, path: &str, value: V)
        requires
            old(self).wf(),
        ensures
            final(self).wf(),
            final(self)@ == old(self)@.insert(paths::components(path@), value),
    {
        let at = self.position(path);
        let ghost before = *self;
        let ghost key = paths::components(path@);
        if at < self.entries.len() {
            self.entries.set(at, (path.to_owned(), value));
        } else {
            self.entries.push((path.to_owned(), value));
        }
        proof {
            let now = *self;
            assert forall|i: int, j: int|
                #![trigger now.listed()[i], now.listed()[j]]
                0 <= i < j < now.listed().len() implies !paths::same(
                now.listed()[i].0@,
                now.listed()[j].0@,
            ) by {
                if i != at {
                    assert(before.listed()[i] == now.listed()[i]);
                }
                if j != at {
                    assert(before.listed()[j] == now.listed()[j]);
                }
                if at < before.listed().len() {
                    assert(paths::same(before.listed()[at as int].0@, path@));
                }
                assert(now.listed()[at as int].0@ == path@);
                assert(i < at ==> !paths::same(before.listed()[i].0@, path@));
            }
            now.lemma_entry(at as int);
            assert forall|k: Seq<Seq<char>>| #[trigger]
                now@.contains_key(k) == before@.insert(key, value).contains_key(k) && (
            now@.contains_key(k) ==> now@[k] == before@.insert(key, value)[k]) by {
                if k != key {
                    if before@.contains_key(k) {
                        let i = choose|i: int|
                            0 <= i < before.listed().len() && paths::components(
                                (#[trigger] before.listed()[i]).0@,
                            ) == k;
                        assert(now.listed()[i] == before.listed()[i]);
                        now.lemma_entry(i);
                        before.lemma_entry(i);
                    }
                    if now@.contains_key(k) {
                        let i = choose|i: int|
                            0 <= i < now.listed().len() && paths::components(
                                (#[trigger] now.listed()[i]).0@,
                            ) == k;
                        assert(before.listed()[i] == now.listed()[i]);
                    }
                }
            }
            assert(now@ =~= before@.insert(key, value));
        }
    }
}

} // verus!
