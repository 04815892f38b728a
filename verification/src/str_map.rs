//! A map from strings to values.

use vstd::prelude::*;

use crate::text;

verus! {

/// A map keyed by strings. No key occurs twice.
pub struct StrMap<V> {
    entries: Vec<(String, V)>,
}

/// The position of the entry with key `k`, counting from the front.
spec fn position<V>(entries: Seq<(String, V)>, k: Seq<char>) -> Option<int>
    decreases entries.len(),
{
    if entries.len() == 0 {
        None
    } else if entries.last().0@ == k {
        Some(entries.len() - 1)
    } else {
        position(entries.drop_last(), k)
    }
}

spec fn distinct<V>(entries: Seq<(String, V)>) -> bool {
    forall|i: int, j: int|
        #![trigger entries[i], entries[j]]
        0 <= i < j < entries.len() ==> entries[i].0@ != entries[j].0@
}

spec fn map_of<V>(entries: Seq<(String, V)>) -> Map<Seq<char>, V> {
    Map::new(
        |k: Seq<char>| position(entries, k) is Some,
        |k: Seq<char>| entries[position(entries, k)->0].1,
    )
}

spec fn keys_of<V>(entries: Seq<(String, V)>) -> Seq<Seq<char>> {
    entries.map_values(|e: (String, V)| e.0@)
}

proof fn lemma_position<V>(entries: Seq<(String, V)>, k: Seq<char>)
    ensures
        position(entries, k) matches Some(i) ==> 0 <= i < entries.len() && entries[i].0@ == k,
        position(entries, k) is None ==> forall|i: int|
            0 <= i < entries.len() ==> (#[trigger] entries[i]).0@ != k,
    decreases entries.len(),
{
    if entries.len() > 0 && entries.last().0@ != k {
        lemma_position(entries.drop_last(), k);
        assert forall|i: int|
            position(entries, k) is None && 0 <= i < entries.len() implies (
        #[trigger] entries[i]).0@ != k by {
            if i < entries.len() - 1 {
                assert(entries.drop_last()[i] == entries[i]);
            }
        }
    }
}

proof fn lemma_unique<V>(entries: Seq<(String, V)>, i: int)
    requires
        distinct(entries),
        0 <= i < entries.len(),
    ensures
        position(entries, entries[i].0@) == Some(i),
{
    lemma_position(entries, entries[i].0@);
}

proof fn lemma_keys<V>(entries: Seq<(String, V)>)
    requires
        distinct(entries),
    ensures
        keys_of(entries).no_duplicates(),
        forall|k: Seq<char>|
            map_of(entries).dom().contains(k) <==> #[trigger] keys_of(entries).contains(k),
        map_of(entries).dom() == keys_of(entries).to_set(),
        map_of(entries).dom().finite(),
        map_of(entries).dom().len() == entries.len(),
{
    let ks = keys_of(entries);
    assert forall|k: Seq<char>| map_of(entries).dom().contains(k) <==> #[trigger] ks.contains(k) by {
        lemma_position(entries, k);
        if map_of(entries).dom().contains(k) {
            assert(ks[position(entries, k)->0] == k);
        }
        if ks.contains(k) {
            let i = choose|i: int| 0 <= i < ks.len() && ks[i] == k;
            assert(entries[i].0@ == k);
        }
    }
    assert forall|i: int, j: int| 0 <= i < ks.len() && 0 <= j < ks.len() && i != j implies ks[i]
        != ks[j] by {
        assert(entries[i].0@ == ks[i]);
        assert(entries[j].0@ == ks[j]);
    }
    assert(map_of(entries).dom() =~= ks.to_set());
    ks.unique_seq_to_set();
}

impl<V> View for StrMap<V> {
    type V = Map<Seq<char>, V>;

    closed spec fn view(&self) -> Map<Seq<char>, V> {
        map_of(self.entries@)
    }
}

impl<V> StrMap<V> {
    #[verifier::type_invariant]
    spec fn keys_differ(self) -> bool {
        distinct(self.entries@)
    }

    /// The keys, in the order in which they were first inserted.
    pub closed spec fn keys(&self) -> Seq<Seq<char>> {
        keys_of(self.entries@)
    }

    /// An empty map.
    pub fn new() -> (m: Self)
        ensures
            m@ == Map::<Seq<char>, V>::empty(),
            m.keys() == Seq::<Seq<char>>::empty(),
    {
        let m = StrMap { entries: Vec::new() };
        assert(m@ =~= Map::<Seq<char>, V>::empty());
        m
    }

    /// How many keys there are.
    pub fn len(&self) -> (n: usize)
        ensures
            n == self.keys().len(),
            self.keys().no_duplicates(),
            self@.dom() == self.keys().to_set(),
            self@.dom().finite(),
            n == self@.dom().len(),
    {
        proof {
            use_type_invariant(self);
            lemma_keys(self.entries@);
        }
        self.entries.len()
    }

    fn find(&self, key: &str) -> (r: Option<usize>)
        ensures
            r is Some == position(self.entries@, key@) is Some,
            r matches Some(i) ==> i == position(self.entries@, key@)->0 && i < self.entries@.len(),
    {
        proof {
            use_type_invariant(self);
            lemma_position(self.entries@, key@);
        }
        let mut i: usize = 0;
        while i < self.entries.len()
            invariant
                i <= self.entries@.len(),
                distinct(self.entries@),
                forall|k: int| 0 <= k < i ==> (#[trigger] self.entries@[k]).0@ != key@,
            decreases self.entries@.len() - i,
        {
            if text::same_text(self.entries[i].0.as_str(), key) {
                proof {
                    lemma_unique(self.entries@, i as int);
                }
                return Some(i);
            }
            i = i + 1;
        }
        None
    }

    /// Whether `key` is in the map.
    pub fn contains_key(&self, key: &str) -> (r: bool)
        ensures
            r == self@.dom().contains(key@),
    {
        self.find(key).is_some()
    }

    /// The value of `key`.
    pub fn get(&self, key: &str) -> (r: Option<&V>)
        ensures
            r is Some == self@.dom().contains(key@),
            r matches Some(v) ==> *v == self@[key@],
    {
        match self.find(key) {
            Some(i) => Some(&self.entries[i].1),
            None => None,
        }
    }

    /// The key and value at position `i`.
    pub fn entry(&self, i: usize) -> (r: (&String, &V))
        requires
            i < self.keys().len(),
        ensures
            r.0@ == self.keys()[i as int],
            self@.dom().contains(r.0@),
            *r.1 == self@[r.0@],
    {
        proof {
            use_type_invariant(self);
            lemma_unique(self.entries@, i as int);
        }
        let e = &self.entries[i];
        (&e.0, &e.1)
    }

    /// Gives `key` the value `value`.
    pub fn insert(&mut self, key: String, value: V)
        ensures
            final(self)@ == old(self)@.insert(key@, value),
            old(self)@.dom().contains(key@) ==> final(self).keys() == old(self).keys(),
            !old(self)@.dom().contains(key@) ==> final(self).keys() == old(self).keys().push(key@),
    {
        let at = self.find(key.as_str());
        proof {
            use_type_invariant(&*self);
            lemma_position(self.entries@, key@);
        }
        let ghost before = self.entries@;
        let ghost k = key@;
        let mut entries: Vec<(String, V)> = Vec::new();
        std::mem::swap(&mut entries, &mut self.entries);
        match at {
            Some(i) => {
                entries[i] = (key, value);
            },
            None => {
                entries.push((key, value));
            },
        }
        let ghost after = entries@;
        proof {
            let j: int = if at is Some { at->0 as int } else { before.len() as int };
            assert(after[j].0@ == k && after[j].1 == value);
            assert(distinct(after)) by {
                assert forall|a: int, b: int|
                    #![trigger after[a], after[b]]
                    0 <= a < b < after.len() implies after[a].0@ != after[b].0@ by {
                    if a != j && b != j {
                        assert(after[a] == before[a] && after[b] == before[b]);
                    } else if a == j {
                        assert(after[b] == before[b]);
                        assert(at is Some);
                        assert(before[a].0@ != before[b].0@);
                    } else {
                        assert(after[a] == before[a]);
                        if at is Some {
                            assert(before[a].0@ != before[b].0@);
                        }
                    }
                }
            }
            assert(map_of(after) =~= map_of(before).insert(k, value)) by {
                assert forall|q: Seq<char>|
                    #![trigger map_of(after).dom().contains(q)]
                    map_of(after).dom().contains(q) <==> map_of(before).insert(
                        k,
                        value,
                    ).dom().contains(q) by {
                    lemma_position(after, q);
                    lemma_position(before, q);
                    if q == k {
                        assert(after[j].0@ == k);
                    } else {
                        if let Some(p) = position(after, q) {
                            assert(before[p] == after[p]);
                        }
                        if let Some(p) = position(before, q) {
                            assert(before[p] == after[p]);
                        }
                    }
                }
                assert forall|q: Seq<char>| map_of(after).dom().contains(q) implies #[trigger] map_of(
                    after,
                )[q] == map_of(before).insert(k, value)[q] by {
                    lemma_position(after, q);
                    lemma_position(before, q);
                    let p = position(after, q)->0;
                    if q == k {
                        lemma_unique(after, j);
                    } else {
                        assert(before[p] == after[p]);
                        lemma_unique(before, p);
                    }
                }
            }
            if at is Some {
                assert(keys_of(after) =~= keys_of(before));
            } else {
                assert(keys_of(after) =~= keys_of(before).push(k));
            }
        }
        self.entries = entries;
    }

    /// Takes `key` out of the map.
    pub fn remove(&mut self, key: &str) -> (r: Option<V>)
        ensures
            final(self)@ == old(self)@.remove(key@),
            r is Some == old(self)@.dom().contains(key@),
            r matches Some(v) ==> v == old(self)@[key@],
    {
        let at = self.find(key);
        proof {
            use_type_invariant(&*self);
            lemma_position(self.entries@, key@);
        }
        let ghost before = self.entries@;
        match at {
            None => {
                assert(self@ =~= old(self)@.remove(key@));
                None
            },
            Some(i) => {
                let mut entries: Vec<(String, V)> = Vec::new();
                std::mem::swap(&mut entries, &mut self.entries);
                let e = entries.remove(i);
                let ghost after = entries@;
                proof {
                    assert(distinct(after)) by {
                        assert forall|a: int, b: int|
                            #![trigger after[a], after[b]]
                            0 <= a < b < after.len() implies after[a].0@ != after[b].0@ by {
                            let a0 = if a < i { a } else { a + 1 };
                            let b0 = if b < i { b } else { b + 1 };
                            assert(after[a] == before[a0] && after[b] == before[b0]);
                        }
                    }
                    assert(map_of(after) =~= map_of(before).remove(key@)) by {
                        assert forall|q: Seq<char>|
                            #![trigger map_of(after).dom().contains(q)]
                            map_of(after).dom().contains(q) <==> map_of(before).remove(
                                key@,
                            ).dom().contains(q) by {
                            lemma_position(after, q);
                            lemma_position(before, q);
                            if let Some(p) = position(after, q) {
                                let p0 = if p < i { p } else { p + 1 };
                                assert(after[p] == before[p0]);
                                lemma_unique(before, p0);
                            }
                            if let Some(p) = position(before, q) {
                                if p < i {
                                    assert(after[p] == before[p]);
                                } else if p > i {
                                    assert(after[p - 1] == before[p]);
                                }
                            }
                        }
                        assert forall|q: Seq<char>| map_of(after).dom().contains(q) implies #[trigger] map_of(
                            after,
                        )[q] == map_of(before).remove(key@)[q] by {
                            lemma_position(after, q);
                            let p = position(after, q)->0;
                            let p0 = if p < i { p } else { p + 1 };
                            assert(after[p] == before[p0]);
                            lemma_unique(before, p0);
                        }
                    }
                }
                self.entries = entries;
                Some(e.1)
            },
        }
    }
}

} // verus!
