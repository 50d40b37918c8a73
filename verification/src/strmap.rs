//! A map keyed by strings, kept as a list of entries in insertion order.
use crate::text::same_text;
use vstd::prelude::*;

verus! {

/// No two entries have the same key.
pub open spec fn distinct_keys<V>(entries: Seq<(String, V)>) -> bool {
    forall|i: int, j: int|
        0 <= i < j < entries.len() ==> (#[trigger] entries[i]).0@ != (#[trigger] entries[j]).0@
}

/// Some entry has the key `key`.
pub open spec fn has_entry<V>(entries: Seq<(String, V)>, key: Seq<char>) -> bool {
    exists|i: int| 0 <= i < entries.len() && (#[trigger] entries[i]).0@ == key
}

/// The map that a list of entries stands for.
pub open spec fn entries_map<V: View>(entries: Seq<(String, V)>) -> Map<Seq<char>, V::V> {
    Map::new(
        |key: Seq<char>| has_entry(entries, key),
        |key: Seq<char>|
            {
                let i = choose|i: int| 0 <= i < entries.len() && (#[trigger] entries[i]).0@ == key;
                entries[i].1@
            },
    )
}

/// A map from strings to `V`.
#[derive(Debug)]
pub struct StrMap<V> {
    entries: Vec<(String, V)>,
}

impl<V: View> View for StrMap<V> {
    type V = Map<Seq<char>, V::V>;

    closed spec fn view(&self) -> Map<Seq<char>, V::V> {
        entries_map(self.entries@)
    }
}

impl<V> StrMap<V> {
    #[verifier::type_invariant]
    spec fn keys_distinct(self) -> bool {
        distinct_keys(self.entries@)
    }
}

impl<V: View> StrMap<V> {
    /// The empty map.
    pub fn new() -> (r: Self)
        ensures
            r@ == Map::<Seq<char>, V::V>::empty(),
    {
        let r = StrMap { entries: Vec::new() };
        assert(r@ =~= Map::<Seq<char>, V::V>::empty());
        r
    }

    /// The position of the entry with the key `key`, or the number of entries.
    fn position(&self, key: &str) -> (r: usize)
        ensures
            r <= self.entries@.len(),
            r < self.entries@.len() ==> self.entries@[r as int].0@ == key@,
            r == self.entries@.len() ==> !has_entry(self.entries@, key@),
    {
        let mut i: usize = 0;
        while i < self.entries.len()
            invariant
                i <= self.entries@.len(),
                forall|j: int| 0 <= j < i ==> (#[trigger] self.entries@[j]).0@ != key@,
            decreases self.entries.len() - i,
        {
            if same_text(self.entries[i].0.as_str(), key) {
                return i;
            }
            i = i + 1;
        }
        i
    }

    /// The value stored under `key`.
    pub fn get(&self, key: &str) -> (r: Option<&V>)
        ensures
            r is Some <==> self@.contains_key(key@),
            r matches Some(v) ==> v@ == self@[key@],
    {
        proof {
            use_type_invariant(self);
        }
        let i = self.position(key);
        if i < self.entries.len() {
            proof {
                lemma_entry(self.entries@, i as int);
            }
            Some(&self.entries[i].1)
        } else {
            None
        }
    }

    /// Whether something is stored under `key`.
    pub fn contains_key(&self, key: &str) -> (r: bool)
        ensures
            r == self@.contains_key(key@),
    {
        self.get(key).is_some()
    }

    /// The number of keys.
    pub fn len(&self) -> (r: usize)
        ensures
            r == self@.dom().len(),
            self@.dom().finite(),
    {
        proof {
            use_type_invariant(self);
            let keys = self.entries@.map_values(|e: (String, V)| e.0@);
            assert(keys.no_duplicates());
            keys.unique_seq_to_set();
            assert(keys.to_set() =~= self@.dom()) by {
                assert forall|k: Seq<char>| keys.to_set().contains(k) implies self@.dom().contains(
                    k,
                ) by {
                    let i = choose|i: int| 0 <= i < keys.len() && keys[i] == k;
                    assert(self.entries@[i].0@ == k);
                }
                assert forall|k: Seq<char>| self@.dom().contains(k) implies keys.to_set().contains(
                    k,
                ) by {
                    let i = choose|i: int|
                        0 <= i < self.entries@.len() && (#[trigger] self.entries@[i]).0@ == k;
                    assert(keys[i] == k);
                }
            }
        }
        self.entries.len()
    }

    /// Whether the map is empty.
    pub fn is_empty(&self) -> (r: bool)
        ensures
            r == (self@ == Map::<Seq<char>, V::V>::empty()),
    {
        let r = self.entries.len() == 0;
        proof {
            if r {
                assert(self@ =~= Map::<Seq<char>, V::V>::empty());
            } else {
                assert(has_entry(self.entries@, self.entries@[0].0@));
                assert(self@.contains_key(self.entries@[0].0@));
            }
        }
        r
    }

    /// The entries, in the order in which their keys were first stored.
    pub fn entries(&self) -> (r: &Vec<(String, V)>)
        ensures
            distinct_keys(r@),
            entries_map(r@) == self@,
    {
        proof {
            use_type_invariant(self);
        }
        &self.entries
    }

    /// Stores `value` under `key`, in place of what was there.
    pub fn insert(&mut self, key: String, value: V)
        ensures
            final(self)@ == old(self)@.insert(key@, value@),
    {
        proof {
            use_type_invariant(&*self);
        }
        let i = self.position(key.as_str());
        let ghost before = self.entries@;
        let mut entries: Vec<(String, V)> = Vec::new();
        std::mem::swap(&mut entries, &mut self.entries);
        if i < entries.len() {
            entries.set(i, (key, value));
        } else {
            entries.push((key, value));
        }
        let ghost after = entries@;
        proof {
            lemma_stored(before, after, i as int);
        }
        self.entries = entries;
    }
}

impl Clone for StrMap<String> {
    fn clone(&self) -> (r: Self)
        ensures
            r@ == self@,
    {
        proof {
            use_type_invariant(self);
        }
        let mut entries: Vec<(String, String)> = Vec::new();
        let mut i: usize = 0;
        while i < self.entries.len()
            invariant
                i <= self.entries@.len(),
                entries@ == self.entries@.take(i as int),
            decreases self.entries.len() - i,
        {
            entries.push((self.entries[i].0.clone(), self.entries[i].1.clone()));
            i = i + 1;
            assert(entries@ =~= self.entries@.take(i as int));
        }
        assert(entries@ =~= self.entries@);
        StrMap { entries }
    }
}

/// A list with distinct keys stands for a map that holds each of its entries.
pub proof fn lemma_entry<V: View>(entries: Seq<(String, V)>, i: int)
    requires
        distinct_keys(entries),
        0 <= i < entries.len(),
    ensures
        entries_map(entries).contains_key(entries[i].0@),
        entries_map(entries)[entries[i].0@] == entries[i].1@,
{
    let key = entries[i].0@;
    assert(has_entry(entries, key));
    let j = choose|j: int| 0 <= j < entries.len() && (#[trigger] entries[j]).0@ == key;
    assert(j == i);
}

/// Writing one entry over the one with its key, or behind the last where no key matches.
proof fn lemma_stored<V: View>(before: Seq<(String, V)>, after: Seq<(String, V)>, i: int)
    requires
        distinct_keys(before),
        0 <= i <= before.len(),
        i < before.len() ==> after == before.update(i, after[i]) && after[i].0@ == before[i].0@,
        i == before.len() ==> after == before.push(after[i]) && !has_entry(before, after[i].0@),
    ensures
        distinct_keys(after),
        entries_map(after) == entries_map(before).insert(after[i].0@, after[i].1@),
{
    let key = after[i].0@;
    assert(distinct_keys(after)) by {
        assert forall|a: int, b: int| 0 <= a < b < after.len() implies (#[trigger] after[a]).0@ != (
        #[trigger] after[b]).0@ by {
            if i == before.len() {
                if b == i {
                    assert(before[a].0@ != key);
                } else {
                    assert(before[a].0@ != before[b].0@);
                }
            } else {
                assert(before[a].0@ != before[b].0@);
            }
        }
    }
    let left = entries_map(after);
    let right = entries_map(before).insert(key, after[i].1@);
    assert forall|k: Seq<char>| left.contains_key(k) <==> right.contains_key(k) by {
        if has_entry(after, k) {
            let j = choose|j: int| 0 <= j < after.len() && (#[trigger] after[j]).0@ == k;
            if j != i {
                assert(before[j].0@ == k);
            }
        }
        if has_entry(before, k) {
            let j = choose|j: int| 0 <= j < before.len() && (#[trigger] before[j]).0@ == k;
            assert(after[j].0@ == k);
        }
        assert(after[i].0@ == key);
    }
    assert forall|k: Seq<char>| left.contains_key(k) implies left[k] == right[k] by {
        let j = choose|j: int| 0 <= j < after.len() && (#[trigger] after[j]).0@ == k;
        lemma_entry(after, j);
        if j != i {
            lemma_entry(before, j);
            assert(after[i].0@ != after[j].0@);
        }
    }
    assert(left =~= right);
}

} // verus!
