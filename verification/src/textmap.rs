//! Maps from text, kept in the order in which their keys first came.
use vstd::prelude::*;
use crate::text::{same, string_views};

verus! {

broadcast use vstd::string::group_string_axioms;

/// A map from text to `V`.
#[derive(Debug)]
pub struct TextMap<V> {
    entries: Vec<(String, V)>,
}

/// What some entries map a text to.
spec fn lookup<V>(entries: Seq<(String, V)>, key: Seq<char>) -> Option<V> {
    if exists|i: int| 0 <= i < entries.len() && (#[trigger] entries[i]).0@ == key {
        let i = choose|i: int| 0 <= i < entries.len() && (#[trigger] entries[i]).0@ == key;
        Some(entries[i].1)
    } else {
        None
    }
}

/// No key twice.
spec fn distinct_keys<V>(entries: Seq<(String, V)>) -> bool {
    forall|i: int, j: int|
        0 <= i < entries.len() && 0 <= j < entries.len() && (#[trigger] entries[i]).0@ == (
        #[trigger] entries[j]).0@ ==> i == j
}

impl<V> View for TextMap<V> {
    type V = Map<Seq<char>, V>;

    closed spec fn view(&self) -> Map<Seq<char>, V> {
        Map::new(
            |key: Seq<char>| lookup(self.entries@, key) is Some,
            |key: Seq<char>| lookup(self.entries@, key)->0,
        )
    }
}

proof fn lemma_lookup<V>(entries: Seq<(String, V)>, i: int)
    requires
        distinct_keys(entries),
        0 <= i < entries.len(),
    ensures
        lookup(entries, entries[i].0@) == Some(entries[i].1),
{
    let key = entries[i].0@;
    let k = choose|k: int| 0 <= k < entries.len() && (#[trigger] entries[k]).0@ == key;
    assert(entries[k].0@ == entries[i].0@);
}

impl<V> TextMap<V> {
    #[verifier::type_invariant]
    spec fn well_formed(&self) -> bool {
        distinct_keys(self.entries@)
    }

    /// The keys, in the order in which they first came.
    pub closed spec fn keys_in_order(&self) -> Seq<Seq<char>> {
        Seq::new(self.entries@.len(), |i: int| self.entries@[i].0@)
    }

    /// The map with no entry.
    pub fn new() -> (r: TextMap<V>)
        ensures
            r@ == Map::<Seq<char>, V>::empty(),
            r.keys_in_order() == Seq::<Seq<char>>::empty(),
    {
        let r = TextMap { entries: Vec::new() };
        assert(r@ =~= Map::<Seq<char>, V>::empty());
        assert(r.keys_in_order() =~= Seq::<Seq<char>>::empty());
        r
    }

    fn position(&self, key: &str) -> (r: Option<usize>)
        ensures
            match r {
                Some(i) => i < self.entries@.len() && self.entries@[i as int].0@ == key@,
                None => forall|i: int|
                    0 <= i < self.entries@.len() ==> (#[trigger] self.entries@[i]).0@ != key@,
            },
    {
        let mut i: usize = 0;
        while i < self.entries.len()
            invariant
                i <= self.entries@.len(),
                forall|j: int| 0 <= j < i ==> (#[trigger] self.entries@[j]).0@ != key@,
            decreases self.entries.len() - i,
        {
            if same(self.entries[i].0.as_str(), key) {
                return Some(i);
            }
            i += 1;
        }
        None
    }

    /// What `key` maps to.
    pub fn get(&self, key: &str) -> (r: Option<&V>)
        ensures
            match r {
                Some(v) => self@.contains_key(key@) && self@[key@] == *v,
                None => !self@.contains_key(key@),
            },
    {
        proof {
            use_type_invariant(self);
        }
        match self.position(key) {
            Some(i) => {
                proof {
                    lemma_lookup(self.entries@, i as int);
                }
                Some(&self.entries[i].1)
            },
            None => None,
        }
    }

    /// Whether `key` maps to something.
    pub fn contains_key(&self, key: &str) -> (r: bool)
        ensures
            r == self@.contains_key(key@),
    {
        self.get(key).is_some()
    }

    /// Lets `key` map to `value`.
    pub fn insert(&mut self, key: String, value: V)
        ensures
            final(self)@ == old(self)@.insert(key@, value),
            final(self).keys_in_order() == (if old(self)@.contains_key(key@) {
                old(self).keys_in_order()
            } else {
                old(self).keys_in_order().push(key@)
            }),
    {
        proof {
            use_type_invariant(&*self);
        }
        let ghost before = self.entries@;
        let ghost old_map = self@;
        let ghost old_keys = self.keys_in_order();
        match self.position(key.as_str()) {
            Some(i) => {
                let k = self.entries[i].0.clone();
                let mut entries: Vec<(String, V)> = Vec::new();
                core::mem::swap(&mut entries, &mut self.entries);
                entries.set(i, (k, value));
                proof {
                    lemma_lookup(before, i as int);
                    assert(entries@ == before.update(i as int, (k, value)));
                    assert(distinct_keys(entries@));
                    lemma_lookup(entries@, i as int);
                    assert forall|t: Seq<char>| t != key@ implies #[trigger] lookup(entries@, t)
                        == lookup(before, t) by {
                        lemma_same_lookup(before, entries@, t);
                    }
                }
                self.entries = entries;
            },
            None => {
                let mut entries: Vec<(String, V)> = Vec::new();
                core::mem::swap(&mut entries, &mut self.entries);
                let ghost k = key@;
                entries.push((key, value));
                proof {
                    assert forall|i: int| 0 <= i < before.len() implies entries@[i] == before[i] by {}
                    assert(distinct_keys(entries@));
                    lemma_lookup(entries@, before.len() as int);
                    assert forall|t: Seq<char>| t != k implies #[trigger] lookup(entries@, t)
                        == lookup(before, t) by {
                        if exists|i: int| 0 <= i < before.len() && (#[trigger] before[i]).0@ == t {
                            let i = choose|i: int|
                                0 <= i < before.len() && (#[trigger] before[i]).0@ == t;
                            lemma_lookup(before, i);
                            assert(entries@[i].0@ == t);
                            lemma_lookup(entries@, i);
                        }
                    }
                }
                self.entries = entries;
            },
        }
        proof {
            assert(self@ =~= old_map.insert(key@, value));
            assert(self.keys_in_order() =~= (if old_map.contains_key(key@) {
                old_keys
            } else {
                old_keys.push(key@)
            }));
        }
    }
}

proof fn lemma_same_lookup<V>(a: Seq<(String, V)>, b: Seq<(String, V)>, key: Seq<char>)
    requires
        distinct_keys(a),
        distinct_keys(b),
        a.len() == b.len(),
        forall|i: int| 0 <= i < a.len() ==> (#[trigger] a[i]).0@ == b[i].0@,
        forall|i: int| 0 <= i < a.len() && (#[trigger] a[i]).0@ == key ==> a[i] == b[i],
    ensures
        lookup(a, key) == lookup(b, key),
{
    if exists|i: int| 0 <= i < a.len() && (#[trigger] a[i]).0@ == key {
        let i = choose|i: int| 0 <= i < a.len() && (#[trigger] a[i]).0@ == key;
        lemma_lookup(a, i);
        assert(b[i].0@ == key);
        lemma_lookup(b, i);
    } else {
        assert forall|i: int| 0 <= i < b.len() implies (#[trigger] b[i]).0@ != key by {
            assert(a[i].0@ == b[i].0@);
        }
    }
}


impl<V> TextMap<V> {
    /// Takes `key` out, with what it mapped to.
    pub fn remove(&mut self, key: &str) -> (r: Option<V>)
        ensures
            final(self)@ == old(self)@.remove(key@),
            match r {
                Some(v) => old(self)@.contains_key(key@) && old(self)@[key@] == v,
                None => !old(self)@.contains_key(key@),
            },
            final(self).keys_in_order() == (if old(self)@.contains_key(key@) {
                old(self).keys_in_order().remove(old(self).keys_in_order().index_of(key@))
            } else {
                old(self).keys_in_order()
            }),
    {
        proof {
            use_type_invariant(&*self);
        }
        let ghost before = self.entries@;
        let ghost old_map = self@;
        let ghost old_keys = self.keys_in_order();
        match self.position(key) {
            Some(i) => {
                proof {
                    assert(old_keys[i as int] == key@);
                    let k = old_keys.index_of(key@);
                    assert(before[k].0@ == before[i as int].0@);
                }
                let mut entries: Vec<(String, V)> = Vec::new();
                core::mem::swap(&mut entries, &mut self.entries);
                let taken = entries.remove(i);
                proof {
                    lemma_lookup(before, i as int);
                    let after = before.remove(i as int);
                    assert(entries@ == after);
                    assert forall|j: int| 0 <= j < after.len() implies #[trigger] after[j] == (if j
                        < i {
                        before[j]
                    } else {
                        before[j + 1]
                    }) by {}
                    assert(distinct_keys(after)) by {
                        assert forall|a: int, b: int|
                            0 <= a < after.len() && 0 <= b < after.len() && (#[trigger] after[a]).0@
                                == (#[trigger] after[b]).0@ implies a == b by {
                            let x = if a < i {
                                a
                            } else {
                                a + 1
                            };
                            let y = if b < i {
                                b
                            } else {
                                b + 1
                            };
                            assert(before[x].0@ == before[y].0@);
                        }
                    }
                    assert forall|t: Seq<char>| t != key@ implies #[trigger] lookup(after, t)
                        == lookup(before, t) by {
                        if exists|k: int| 0 <= k < before.len() && (#[trigger] before[k]).0@ == t {
                            let k = choose|k: int|
                                0 <= k < before.len() && (#[trigger] before[k]).0@ == t;
                            lemma_lookup(before, k);
                            let m = if k < i {
                                k
                            } else {
                                k - 1
                            };
                            assert(after[m].0@ == t);
                            lemma_lookup(after, m);
                        } else {
                            assert forall|m: int| 0 <= m < after.len() implies (
                            #[trigger] after[m]).0@ != t by {
                                let k = if m < i {
                                    m
                                } else {
                                    m + 1
                                };
                                assert(before[k].0@ != t);
                            }
                        }
                    }
                    assert forall|m: int| 0 <= m < after.len() implies (#[trigger] after[m]).0@
                        != key@ by {
                        let k = if m < i {
                            m
                        } else {
                            m + 1
                        };
                        if before[k].0@ == key@ {
                            assert(before[k].0@ == before[i as int].0@);
                        }
                    }
                }
                self.entries = entries;
                assert(self@ =~= old_map.remove(key@));
                assert(self.keys_in_order() =~= old_keys.remove(i as int));
                Some(taken.1)
            },
            None => {
                assert(self@ =~= old_map.remove(key@));
                None
            },
        }
    }

    /// How many entries there are.
    pub fn len(&self) -> (r: usize)
        ensures
            r == self.keys_in_order().len(),
    {
        self.entries.len()
    }

    /// The keys, in the order in which they first came, each once.
    pub fn keys(&self) -> (r: Vec<String>)
        ensures
            string_views(r@) == self.keys_in_order(),
            self.keys_in_order().no_duplicates(),
            forall|k: Seq<char>|
                self.keys_in_order().contains(k) <==> #[trigger] self@.contains_key(k),
    {
        proof {
            use_type_invariant(self);
        }
        let mut out: Vec<String> = Vec::new();
        let mut i: usize = 0;
        while i < self.entries.len()
            invariant
                i <= self.entries@.len(),
                out@.len() == i,
                forall|j: int| 0 <= j < i ==> (#[trigger] out@[j])@ == self.entries@[j].0@,
            decreases self.entries.len() - i,
        {
            out.push(self.entries[i].0.clone());
            i += 1;
        }
        assert(string_views(out@) =~= self.keys_in_order());
        assert forall|k: Seq<char>| self.keys_in_order().contains(k) <==>
            #[trigger] self@.contains_key(k) by {
            if self@.contains_key(k) {
                let i = choose|i: int|
                    0 <= i < self.entries@.len() && (#[trigger] self.entries@[i]).0@ == k;
                assert(self.keys_in_order()[i] == k);
            }
            if self.keys_in_order().contains(k) {
                let i = choose|i: int|
                    0 <= i < self.keys_in_order().len() && self.keys_in_order()[i] == k;
                assert(self.entries@[i].0@ == k);
            }
        }
        assert forall|i: int, j: int|
            0 <= i < self.keys_in_order().len() && 0 <= j < self.keys_in_order().len() && i
                != j implies self.keys_in_order()[i] != self.keys_in_order()[j] by {
            if self.entries@[i].0@ == self.entries@[j].0@ {
            }
        }
        out
    }
}

} // verus!
