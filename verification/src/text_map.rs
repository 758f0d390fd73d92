//! A map keyed by text whose entries are kept in ascending key order, the
//! order in which an ordered map of `String` keys is walked.
use vstd::prelude::*;
use crate::text::{TextOrder, lex_lt, lemma_lex_lt_irreflexive, lemma_lex_lt_transitive, text_chars, compare_chars};

verus! {

/// Ordered map from text keys to values. Every key occurs once and the
/// entries stand in strictly ascending lexicographic key order.
#[derive(Clone, Debug, PartialEq, Eq)]
pub struct TextMap<V> {
    entries: Vec<(String, V)>,
}

/// Strictly ascending keys.
pub open spec fn keys_ascending<V>(s: Seq<(Seq<char>, V)>) -> bool {
    forall|i: int, j: int| 0 <= i < j < s.len() ==> lex_lt(#[trigger] s[i].0, #[trigger] s[j].0)
}

/// Whether `k` is a key of the ordered entries `s`.
pub open spec fn entries_have_key<V>(s: Seq<(Seq<char>, V)>, k: Seq<char>) -> bool {
    exists|i: int| 0 <= i < s.len() && #[trigger] s[i].0 == k
}

/// A position of key `k` in the ordered entries `s`.
pub open spec fn key_index<V>(s: Seq<(Seq<char>, V)>, k: Seq<char>) -> int {
    choose|i: int| 0 <= i < s.len() && #[trigger] s[i].0 == k
}

/// The value stored under `k` in the ordered entries `s`.
pub open spec fn entries_get<V>(s: Seq<(Seq<char>, V)>, k: Seq<char>) -> Option<V> {
    if entries_have_key(s, k) {
        Some(s[key_index(s, k)].1)
    } else {
        None
    }
}

/// In strictly ascending entries a key has one position, so the value under
/// it is the value at that position.
pub proof fn lemma_entries_get_at<V>(s: Seq<(Seq<char>, V)>, p: int)
    requires
        keys_ascending(s),
        0 <= p < s.len(),
    ensures
        entries_get(s, s[p].0) == Some(s[p].1),
{
    let k = s[p].0;
    assert(entries_have_key(s, k));
    let i = key_index(s, k);
    assert(0 <= i < s.len() && s[i].0 == k);
    if i != p {
        if i < p {
            assert(lex_lt(s[i].0, s[p].0));
        } else {
            assert(lex_lt(s[p].0, s[i].0));
        }
        lemma_lex_lt_irreflexive(k);
    }
    assert(entries_get(s, k) == Some(s[i].1));
}

impl<V> TextMap<V> {
    /// The entries in ascending key order, keys taken by their text.
    pub closed spec fn entries(&self) -> Seq<(Seq<char>, V)> {
        self.entries@.map_values(|e: (String, V)| (e.0@, e.1))
    }

    /// Keys ascend strictly.
    pub closed spec fn wf(&self) -> bool {
        keys_ascending(self.entries())
    }

    pub open spec fn has_key(&self, k: Seq<char>) -> bool {
        entries_have_key(self.entries(), k)
    }

    pub open spec fn spec_get(&self, k: Seq<char>) -> Option<V> {
        entries_get(self.entries(), k)
    }

    pub open spec fn len_spec(&self) -> nat {
        self.entries().len()
    }

    pub proof fn lemma_wf(&self)
        requires
            self.wf(),
        ensures
            keys_ascending(self.entries()),
    {
    }

    /// The entries, in ascending key order.
    pub fn into_entries(self) -> (r: Vec<(String, V)>)
        ensures
            r@.len() == self.entries().len(),
            forall|i: int|
                0 <= i < r@.len() ==> (#[trigger] r@[i]).0@ == self.entries()[i].0 && r@[i].1 == self.entries()[i].1,
    {
        self.entries
    }

    /// An empty map.
    pub fn new() -> (r: Self)
        ensures
            r.wf(),
            r.entries() == Seq::<(Seq<char>, V)>::empty(),
    {
        let r = TextMap { entries: Vec::new() };
        assert(r.entries() =~= Seq::<(Seq<char>, V)>::empty());
        r
    }

    /// Number of entries.
    pub fn len(&self) -> (r: usize)
        ensures
            r == self.entries().len(),
    {
        self.entries.len()
    }

    /// The key of the entry at position `i` in ascending order.
    pub fn key_at(&self, i: usize) -> (r: &str)
        requires
            i < self.entries().len(),
        ensures
            r@ == self.entries()[i as int].0,
    {
        self.entries[i].0.as_str()
    }

    /// The value of the entry at position `i` in ascending order.
    pub fn value_at(&self, i: usize) -> (r: &V)
        requires
            i < self.entries().len(),
        ensures
            *r == self.entries()[i as int].1,
    {
        &self.entries[i].1
    }

    /// The first position whose key is not below `key`, and whether the key
    /// there is `key`.
    fn locate(&self, key: &str) -> (r: (usize, bool))
        requires
            self.wf(),
        ensures
            r.0 <= self.entries().len(),
            forall|i: int| 0 <= i < r.0 ==> lex_lt(#[trigger] self.entries()[i].0, key@),
            r.1 ==> r.0 < self.entries().len() && self.entries()[r.0 as int].0 == key@,
            !r.1 ==> forall|i: int|
                r.0 <= i < self.entries().len() ==> lex_lt(key@, #[trigger] self.entries()[i].0),
    {
        let n = self.entries.len();
        let target = text_chars(key);
        let mut i: usize = 0;
        while i < n
            invariant
                n == self.entries().len(),
                self.wf(),
                target@ == key@,
                i <= n,
                forall|j: int| 0 <= j < i ==> lex_lt(#[trigger] self.entries()[j].0, key@),
            decreases n - i,
        {
            let here = text_chars(self.entries[i].0.as_str());
            assert(here@ == self.entries()[i as int].0);
            match compare_chars(&here, &target) {
                TextOrder::Less => {},
                TextOrder::Equal => {
                    return (i, true);
                },
                TextOrder::Greater => {
                    proof {
                        assert forall|j: int| i <= j < n implies lex_lt(
                            key@,
                            #[trigger] self.entries()[j].0,
                        ) by {
                            if j > i {
                                assert(lex_lt(self.entries()[i as int].0, self.entries()[j].0));
                                lemma_lex_lt_transitive(
                                    key@,
                                    self.entries()[i as int].0,
                                    self.entries()[j].0,
                                );
                            }
                        }
                    }
                    return (i, false);
                },
            }
            i = i + 1;
        }
        (i, false)
    }

    /// The value stored under `key`.
    pub fn get(&self, key: &str) -> (r: Option<&V>)
        requires
            self.wf(),
        ensures
            r == match self.spec_get(key@) {
                Some(v) => Some(&v),
                None => None::<&V>,
            },
    {
        let (i, found) = self.locate(key);
        if found {
            proof {
                lemma_entries_get_at(self.entries(), i as int);
            }
            Some(&self.entries[i].1)
        } else {
            proof {
                if self.has_key(key@) {
                    let j = choose|j: int|
                        0 <= j < self.entries().len() && #[trigger] self.entries()[j].0 == key@;
                    lemma_lex_lt_irreflexive(key@);
                    if j < i {
                    } else {
                    }
                }
            }
            None
        }
    }

    /// Stores `value` under `key` and gives back the value stored there before.
    pub fn insert(&mut self, key: String, value: V) -> (r: Option<V>)
        requires
            old(self).wf(),
        ensures
            final(self).wf(),
            r == old(self).spec_get(key@),
            final(self).spec_get(key@) == Some(value),
            forall|k: Seq<char>| k != key@ ==> #[trigger] final(self).spec_get(k) == old(
                self,
            ).spec_get(k),
            forall|k: Seq<char>| #[trigger]
                final(self).has_key(k) == (old(self).has_key(k) || k == key@),
            final(self).entries().len() == old(self).entries().len() + (if old(self).has_key(
                key@,
            ) {
                0int
            } else {
                1int
            }),
    {
        let ghost before = self.entries();
        let (i, found) = self.locate(key.as_str());
        let ghost k = key@;
        if found {
            proof {
                lemma_entries_get_at(before, i as int);
            }
            let old_entry = self.entries.remove(i);
            self.entries.insert(i, (key, value));
            let ghost after = self.entries();
            assert(after =~= before.update(i as int, (k, value)));
            assert(keys_ascending(after)) by {
                assert forall|a: int, b: int| 0 <= a < b < after.len() implies lex_lt(
                    #[trigger] after[a].0,
                    #[trigger] after[b].0,
                ) by {
                    assert(after[a].0 == before[a].0);
                    assert(after[b].0 == before[b].0);
                }
            }
            proof {
                lemma_entries_get_at(after, i as int);
                assert forall|x: Seq<char>| x != k implies #[trigger] entries_get(after, x)
                    == entries_get(before, x) by {
                    if entries_have_key(before, x) {
                        let j = choose|j: int| 0 <= j < before.len() && #[trigger] before[j].0 == x;
                        lemma_entries_get_at(before, j);
                        lemma_entries_get_at(after, j);
                    }
                    if entries_have_key(after, x) {
                        let j = choose|j: int| 0 <= j < after.len() && #[trigger] after[j].0 == x;
                        assert(before[j].0 == x);
                    }
                }
                assert forall|x: Seq<char>| #[trigger]
                    entries_have_key(after, x) == (entries_have_key(before, x) || x == k) by {
                    if entries_have_key(before, x) {
                        let j = choose|j: int| 0 <= j < before.len() && #[trigger] before[j].0 == x;
                        assert(after[j].0 == x);
                    }
                    if entries_have_key(after, x) {
                        let j = choose|j: int| 0 <= j < after.len() && #[trigger] after[j].0 == x;
                        assert(before[j].0 == x);
                    }
                    if x == k {
                        assert(after[i as int].0 == x);
                    }
                }
            }
            Some(old_entry.1)
        } else {
            proof {
                if entries_have_key(before, k) {
                    let j = choose|j: int| 0 <= j < before.len() && #[trigger] before[j].0 == k;
                    lemma_lex_lt_irreflexive(k);
                }
            }
            self.entries.insert(i, (key, value));
            let ghost after = self.entries();
            assert(after =~= before.insert(i as int, (k, value)));
            assert(keys_ascending(after)) by {
                assert forall|a: int, b: int| 0 <= a < b < after.len() implies lex_lt(
                    #[trigger] after[a].0,
                    #[trigger] after[b].0,
                ) by {
                    if b < i {
                        assert(after[a].0 == before[a].0);
                        assert(after[b].0 == before[b].0);
                    } else if b == i {
                        assert(after[a].0 == before[a].0);
                    } else if a == i {
                        assert(after[b].0 == before[b - 1].0);
                    } else if a < i {
                        assert(after[a].0 == before[a].0);
                        assert(after[b].0 == before[b - 1].0);
                        lemma_lex_lt_transitive(before[a].0, k, before[b - 1].0);
                    } else {
                        assert(after[a].0 == before[a - 1].0);
                        assert(after[b].0 == before[b - 1].0);
                    }
                }
            }
            proof {
                lemma_entries_get_at(after, i as int);
                assert forall|x: Seq<char>| x != k implies #[trigger] entries_get(after, x)
                    == entries_get(before, x) by {
                    if entries_have_key(before, x) {
                        let j = choose|j: int| 0 <= j < before.len() && #[trigger] before[j].0 == x;
                        lemma_entries_get_at(before, j);
                        if j < i {
                            assert(after[j].0 == x);
                            lemma_entries_get_at(after, j);
                        } else {
                            assert(after[j + 1].0 == x);
                            lemma_entries_get_at(after, j + 1);
                        }
                    }
                    if entries_have_key(after, x) {
                        let j = choose|j: int| 0 <= j < after.len() && #[trigger] after[j].0 == x;
                        if j < i {
                            assert(before[j].0 == x);
                        } else if j > i {
                            assert(before[j - 1].0 == x);
                        }
                    }
                }
                assert forall|x: Seq<char>| #[trigger]
                    entries_have_key(after, x) == (entries_have_key(before, x) || x == k) by {
                    if entries_have_key(before, x) {
                        let j = choose|j: int| 0 <= j < before.len() && #[trigger] before[j].0 == x;
                        if j < i {
                            assert(after[j].0 == x);
                        } else {
                            assert(after[j + 1].0 == x);
                        }
                    }
                    if entries_have_key(after, x) {
                        let j = choose|j: int| 0 <= j < after.len() && #[trigger] after[j].0 == x;
                        if j < i {
                            assert(before[j].0 == x);
                        } else if j > i {
                            assert(before[j - 1].0 == x);
                        }
                    }
                    if x == k {
                        assert(after[i as int].0 == x);
                    }
                }
            }
            None
        }
    }
}

impl<V> TextMap<V> {
    /// Takes the entry under `key` out of the map and gives back its value.
    pub fn remove(&mut self, key: &str) -> (r: Option<V>)
        requires
            old(self).wf(),
        ensures
            final(self).wf(),
            r == old(self).spec_get(key@),
            final(self).spec_get(key@) is None,
            forall|k: Seq<char>| k != key@ ==> #[trigger] final(self).spec_get(k) == old(
                self,
            ).spec_get(k),
            forall|k: Seq<char>| #[trigger]
                final(self).has_key(k) == (old(self).has_key(k) && k != key@),
    {
        let ghost before = self.entries();
        let (i, found) = self.locate(key);
        if !found {
            proof {
                if entries_have_key(before, key@) {
                    let j = choose|j: int| 0 <= j < before.len() && #[trigger] before[j].0 == key@;
                    lemma_lex_lt_irreflexive(key@);
                }
            }
            return None;
        }
        proof {
            lemma_entries_get_at(before, i as int);
        }
        let old_entry = self.entries.remove(i);
        let ghost after = self.entries();
        assert(after =~= before.remove(i as int));
        assert(keys_ascending(after)) by {
            assert forall|a: int, b: int| 0 <= a < b < after.len() implies lex_lt(
                #[trigger] after[a].0,
                #[trigger] after[b].0,
            ) by {
                if b < i {
                    assert(after[a].0 == before[a].0);
                    assert(after[b].0 == before[b].0);
                } else if a < i {
                    assert(after[a].0 == before[a].0);
                    assert(after[b].0 == before[b + 1].0);
                } else {
                    assert(after[a].0 == before[a + 1].0);
                    assert(after[b].0 == before[b + 1].0);
                }
            }
        }
        proof {
            assert forall|x: Seq<char>| #[trigger]
                entries_have_key(after, x) == (entries_have_key(before, x) && x != key@) by {
                if entries_have_key(after, x) {
                    let j = choose|j: int| 0 <= j < after.len() && #[trigger] after[j].0 == x;
                    if j < i {
                        assert(before[j].0 == x);
                        assert(lex_lt(before[j].0, before[i as int].0));
                        lemma_lex_lt_irreflexive(x);
                    } else {
                        assert(before[j + 1].0 == x);
                        assert(lex_lt(before[i as int].0, before[j + 1].0));
                        lemma_lex_lt_irreflexive(x);
                    }
                }
                if entries_have_key(before, x) && x != key@ {
                    let j = choose|j: int| 0 <= j < before.len() && #[trigger] before[j].0 == x;
                    if j < i {
                        assert(after[j].0 == x);
                    } else {
                        assert(j != i);
                        assert(after[j - 1].0 == x);
                    }
                }
            }
            assert forall|x: Seq<char>| x != key@ implies #[trigger] entries_get(after, x)
                == entries_get(before, x) by {
                if entries_have_key(before, x) {
                    let j = key_index(before, x);
                    lemma_entries_get_at(before, j);
                    if j < i {
                        assert(after[j].0 == x);
                        lemma_entries_get_at(after, j);
                    } else {
                        assert(j != i);
                        assert(after[j - 1].0 == x);
                        lemma_entries_get_at(after, j - 1);
                    }
                }
            }
        }
        Some(old_entry.1)
    }
}

/// A set of texts kept in ascending order, each text once.
#[derive(Debug, PartialEq, Eq)]
pub struct TextSet {
    map: TextMap<()>,
}

impl Clone for TextSet {
    fn clone(&self) -> (r: Self)
        ensures
            r.items() == self.items(),
    {
        proof {
            use_type_invariant(self);
        }
        let n = self.map.entries.len();
        let mut entries: Vec<(String, ())> = Vec::new();
        let mut i: usize = 0;
        while i < n
            invariant
                n == self.map.entries@.len(),
                i <= n,
                entries@.len() == i,
                forall|j: int|
                    0 <= j < i ==> (#[trigger] entries@[j]).0@ == self.map.entries@[j].0@,
            decreases n - i,
        {
            let key = self.map.entries[i].0.clone();
            entries.push((key, ()));
            i = i + 1;
        }
        let map = TextMap { entries };
        assert(map.entries() =~= self.map.entries());
        let r = TextSet { map };
        assert(r.items() =~= self.items());
        r
    }
}

impl TextSet {
    #[verifier::type_invariant]
    closed spec fn inv(self) -> bool {
        self.map.wf()
    }

    /// The members in ascending order.
    pub closed spec fn items(&self) -> Seq<Seq<char>> {
        self.map.entries().map_values(|e: (Seq<char>, ())| e.0)
    }

    pub open spec fn has(&self, k: Seq<char>) -> bool {
        self.items().contains(k)
    }

    pub fn new() -> (r: Self)
        ensures
            r.items() == Seq::<Seq<char>>::empty(),
            forall|k: Seq<char>| !#[trigger] r.has(k),
    {
        let r = TextSet { map: TextMap::new() };
        assert(r.items() =~= Seq::<Seq<char>>::empty());
        r
    }

    pub fn len(&self) -> (r: usize)
        ensures
            r == self.items().len(),
    {
        self.map.len()
    }

    /// The member at position `i` in ascending order.
    pub fn at(&self, i: usize) -> (r: &str)
        requires
            i < self.items().len(),
        ensures
            r@ == self.items()[i as int],
    {
        self.map.key_at(i)
    }

    /// The members ascend strictly.
    pub fn ascending(&self)
        ensures
            forall|i: int, j: int|
                0 <= i < j < self.items().len() ==> lex_lt(
                    #[trigger] self.items()[i],
                    #[trigger] self.items()[j],
                ),
    {
        proof {
            use_type_invariant(self);
            self.map.lemma_wf();
        }
    }

    pub fn contains(&self, k: &str) -> (r: bool)
        ensures
            r == self.has(k@),
    {
        proof {
            use_type_invariant(self);
        }
        let r = self.map.get(k).is_some();
        proof {
            if self.has(k@) {
                let i = choose|i: int| 0 <= i < self.items().len() && self.items()[i] == k@;
                assert(self.map.entries()[i].0 == k@);
            }
            if self.map.has_key(k@) {
                let i = choose|i: int|
                    0 <= i < self.map.entries().len() && #[trigger] self.map.entries()[i].0 == k@;
                assert(self.items()[i] == k@);
            }
        }
        r
    }

    /// Adds `k`; true when it was not a member before.
    pub fn insert(&mut self, k: String) -> (r: bool)
        ensures
            r == !old(self).has(k@),
            forall|x: Seq<char>| #[trigger] final(self).has(x) == (old(self).has(x) || x == k@),
    {
        proof {
            use_type_invariant(&*self);
        }
        let ghost key = k@;
        let ghost before = self.map;
        proof {
            if before.has_key(key) {
                let i = choose|i: int|
                    0 <= i < before.entries().len() && #[trigger] before.entries()[i].0 == key;
                assert(self.items()[i] == key);
            }
            if self.has(key) {
                let i = choose|i: int| 0 <= i < self.items().len() && self.items()[i] == key;
                assert(before.entries()[i].0 == key);
            }
        }
        let mut map: TextMap<()> = TextMap::new();
        std::mem::swap(&mut map, &mut self.map);
        let replaced = map.insert(k, ());
        self.map = map;
        proof {
            assert forall|x: Seq<char>| #[trigger] self.has(x) == (old(self).has(x) || x == key) by {
                if self.map.has_key(x) {
                    let i = choose|i: int|
                        0 <= i < self.map.entries().len() && #[trigger] self.map.entries()[i].0
                            == x;
                    assert(self.items()[i] == x);
                }
                if self.has(x) {
                    let i = choose|i: int| 0 <= i < self.items().len() && self.items()[i] == x;
                    assert(self.map.entries()[i].0 == x);
                }
                if before.has_key(x) {
                    let i = choose|i: int|
                        0 <= i < before.entries().len() && #[trigger] before.entries()[i].0 == x;
                    assert(old(self).items()[i] == x);
                }
                if old(self).has(x) {
                    let i = choose|i: int|
                        0 <= i < old(self).items().len() && old(self).items()[i] == x;
                    assert(before.entries()[i].0 == x);
                }
            }
        }
        replaced.is_none()
    }
}

} // verus!
