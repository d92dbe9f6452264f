//! A small map from strings to strings that keeps its entries in the order in which
//! their keys first came.

use vstd::prelude::*;

use crate::text::is_word;

verus! {

/// The entries of a map, as pairs of a key and a value.
pub type Entries = Seq<(Seq<char>, Seq<char>)>;

/// No key occurs twice.
pub open spec fn distinct_keys(entries: Entries) -> bool {
    forall|i: int, j: int|
        0 <= i < j < entries.len() ==> (#[trigger] entries[i]).0 != (#[trigger] entries[j]).0
}

/// Some entry has the key `key`.
pub open spec fn has_key(entries: Entries, key: Seq<char>) -> bool {
    exists|i: int| 0 <= i < entries.len() && (#[trigger] entries[i]).0 == key
}

/// The place of an entry with the key `key`, where there is one.
pub open spec fn index_of_key(entries: Entries, key: Seq<char>) -> int {
    choose|i: int| 0 <= i < entries.len() && (#[trigger] entries[i]).0 == key
}

/// The value under `key`, if the key is there.
pub open spec fn spec_lookup(entries: Entries, key: Seq<char>) -> Option<Seq<char>> {
    if has_key(entries, key) {
        Some(entries[index_of_key(entries, key)].1)
    } else {
        None
    }
}

/// The entries after `value` was put under `key`: a key that is there keeps its place
/// and gets the new value, a new key goes to the end.
pub open spec fn spec_insert(entries: Entries, key: Seq<char>, value: Seq<char>) -> Entries {
    if has_key(entries, key) {
        entries.update(index_of_key(entries, key), (key, value))
    } else {
        entries.push((key, value))
    }
}

/// The entries after each of `pairs` was put in, in order.
pub open spec fn spec_insert_all(entries: Entries, pairs: Entries) -> Entries
    decreases pairs.len(),
{
    if pairs.len() == 0 {
        entries
    } else {
        spec_insert(spec_insert_all(entries, pairs.drop_last()), pairs.last().0, pairs.last().1)
    }
}

/// The map that a list of pairs denotes. Where a key occurs more than once, its last
/// value counts.
pub open spec fn pairs_map(pairs: Entries) -> Map<Seq<char>, Seq<char>>
    decreases pairs.len(),
{
    if pairs.len() == 0 {
        Map::empty()
    } else {
        pairs_map(pairs.drop_last()).insert(pairs.last().0, pairs.last().1)
    }
}

/// The keys of the map that pairs denote are the keys of the pairs.
pub proof fn lemma_pairs_map_keys(pairs: Entries)
    ensures
        forall|key: Seq<char>| #[trigger] pairs_map(pairs).contains_key(key) <==> has_key(pairs, key),
    decreases pairs.len(),
{
    if pairs.len() > 0 {
        let front = pairs.drop_last();
        lemma_pairs_map_keys(front);
        let last = pairs[pairs.len() - 1];
        assert(pairs_map(pairs) == pairs_map(front).insert(last.0, last.1));
        assert forall|key: Seq<char>| #[trigger] pairs_map(pairs).contains_key(key) <==> has_key(
            pairs,
            key,
        ) by {
            if pairs_map(pairs).contains_key(key) {
                if key == last.0 {
                    assert(pairs[pairs.len() - 1].0 == key);
                } else {
                    assert(pairs_map(front).contains_key(key));
                    let i = index_of_key(front, key);
                    assert(front[i].0 == key);
                    assert(pairs[i].0 == key);
                }
            }
            if has_key(pairs, key) {
                let i = index_of_key(pairs, key);
                if i < pairs.len() - 1 {
                    assert(front[i].0 == key);
                    assert(has_key(front, key));
                    assert(pairs_map(front).contains_key(key));
                }
            }
        }
    }
}

/// The map that pairs denote gives, under a key, the value of the last pair with it.
pub proof fn lemma_pairs_map_value(pairs: Entries, i: int)
    requires
        0 <= i < pairs.len(),
        forall|j: int| i < j < pairs.len() ==> (#[trigger] pairs[j]).0 != pairs[i].0,
    ensures
        pairs_map(pairs).contains_key(pairs[i].0),
        pairs_map(pairs)[pairs[i].0] == pairs[i].1,
    decreases pairs.len(),
{
    if i < pairs.len() - 1 {
        let front = pairs.drop_last();
        assert(pairs[pairs.len() - 1].0 != pairs[i].0);
        assert(front[i] == pairs[i]);
        assert forall|j: int| i < j < front.len() implies (#[trigger] front[j]).0 != front[i].0 by {
            assert(front[j] == pairs[j]);
        }
        lemma_pairs_map_value(front, i);
    }
}

/// Putting a value under a key keeps the keys distinct, and does to the map that the
/// entries denote what `Map::insert` does.
pub proof fn lemma_insert(entries: Entries, key: Seq<char>, value: Seq<char>)
    requires
        distinct_keys(entries),
    ensures
        distinct_keys(spec_insert(entries, key, value)),
        pairs_map(spec_insert(entries, key, value)) == pairs_map(entries).insert(key, value),
        spec_lookup(spec_insert(entries, key, value), key) == Some(value),
{
    let after = spec_insert(entries, key, value);
    if has_key(entries, key) {
        let at = index_of_key(entries, key);
        assert(after[at] == (key, value));
        assert forall|i: int, j: int| 0 <= i < j < after.len() implies (#[trigger] after[i]).0 != (
        #[trigger] after[j]).0 by {
            assert(after[i].0 == entries[i].0);
            assert(after[j].0 == entries[j].0);
        }
        lemma_pairs_map_keys(entries);
        lemma_pairs_map_keys(after);
        let left = pairs_map(after);
        let right = pairs_map(entries).insert(key, value);
        assert forall|k: Seq<char>| left.contains_key(k) <==> right.contains_key(k) by {
            if has_key(after, k) {
                let i = index_of_key(after, k);
                assert(entries[i].0 == k);
            }
            if has_key(entries, k) {
                let i = index_of_key(entries, k);
                assert(after[i].0 == k);
            }
        }
        assert forall|k: Seq<char>| left.contains_key(k) implies left[k] == right[k] by {
            let i = index_of_key(after, k);
            assert(after[i].0 == k);
            assert(entries[i].0 == k);
            lemma_distinct_after(after, i);
            lemma_distinct_after(entries, i);
            lemma_pairs_map_value(after, i);
            lemma_pairs_map_value(entries, i);
            if k != key {
                assert(after[i] == entries[i]);
            } else {
                lemma_unique_key(entries, key);
            }
        }
        assert(left =~= right);
    } else {
        assert(after.drop_last() == entries);
        assert forall|i: int, j: int| 0 <= i < j < after.len() implies (#[trigger] after[i]).0 != (
        #[trigger] after[j]).0 by {
            assert(after[i] == entries[i]);
            if j < entries.len() {
                assert(after[j] == entries[j]);
            }
        }
        assert(after[after.len() - 1].0 == key);
    }
    lemma_unique_key(after, key);
}

/// With distinct keys, no later entry has the key of an earlier one.
proof fn lemma_distinct_after(entries: Entries, i: int)
    requires
        distinct_keys(entries),
        0 <= i < entries.len(),
    ensures
        forall|j: int| i < j < entries.len() ==> (#[trigger] entries[j]).0 != entries[i].0,
{
}

/// With distinct keys, the entry with a given key is the only one with it.
pub proof fn lemma_unique_key(entries: Entries, key: Seq<char>)
    requires
        distinct_keys(entries),
    ensures
        forall|i: int|
            0 <= i < entries.len() && (#[trigger] entries[i]).0 == key ==> has_key(entries, key)
                && index_of_key(entries, key) == i,
{
    assert forall|i: int| 0 <= i < entries.len() && (#[trigger] entries[i]).0 == key implies has_key(
        entries,
        key,
    ) && index_of_key(entries, key) == i by {
        let at = index_of_key(entries, key);
        if at < i {
            assert(entries[at].0 != entries[i].0);
        } else if i < at {
            assert(entries[i].0 != entries[at].0);
        }
    }
}

/// Putting pairs into entries one after the other gives the map of the entries
/// followed by the pairs.
pub proof fn lemma_insert_all(entries: Entries, pairs: Entries)
    requires
        distinct_keys(entries),
    ensures
        distinct_keys(spec_insert_all(entries, pairs)),
        pairs_map(spec_insert_all(entries, pairs)) == pairs_map(entries + pairs),
    decreases pairs.len(),
{
    if pairs.len() == 0 {
        assert(entries + pairs == entries);
    } else {
        let front = pairs.drop_last();
        lemma_insert_all(entries, front);
        lemma_insert(spec_insert_all(entries, front), pairs.last().0, pairs.last().1);
        assert((entries + pairs).drop_last() == entries + front);
    }
}

/// A map from strings to strings.
#[derive(Debug, PartialEq, Eq)]
pub struct StringMap {
    entries: Vec<(String, String)>,
}

impl View for StringMap {
    type V = Entries;

    closed spec fn view(&self) -> Entries {
        self.entries.deep_view()
    }
}

impl DeepView for StringMap {
    type V = Entries;

    open spec fn deep_view(&self) -> Entries {
        self.view()
    }
}

impl StringMap {
    #[verifier::type_invariant]
    spec fn keys_are_distinct(&self) -> bool {
        distinct_keys(self.entries.deep_view())
    }

    /// The map that the entries denote.
    pub open spec fn map(&self) -> Map<Seq<char>, Seq<char>> {
        pairs_map(self@)
    }

    /// The map without entries.
    pub fn new() -> (map: StringMap)
        ensures
            map@ == Seq::<(Seq<char>, Seq<char>)>::empty(),
    {
        let entries: Vec<(String, String)> = Vec::new();
        assert(entries.deep_view() == Seq::<(Seq<char>, Seq<char>)>::empty());
        StringMap { entries }
    }

    /// The number of entries.
    pub fn len(&self) -> (n: usize)
        ensures
            n == self@.len(),
            distinct_keys(self@),
    {
        proof {
            use_type_invariant(self);
        }
        self.entries.len()
    }

    /// The entries, in the order in which their keys first came.
    pub fn entries(&self) -> (entries: &Vec<(String, String)>)
        ensures
            entries.deep_view() == self@,
            distinct_keys(self@),
    {
        proof {
            use_type_invariant(self);
        }
        &self.entries
    }

    fn position(&self, key: &str) -> (at: Option<usize>)
        ensures
            distinct_keys(self@),
            match at {
                Some(i) => has_key(self@, key@) && i == index_of_key(self@, key@) && i < self@.len(),
                None => !has_key(self@, key@),
            },
    {
        proof {
            use_type_invariant(self);
            lemma_unique_key(self@, key@);
        }
        let mut i: usize = 0;
        while i < self.entries.len()
            invariant
                0 <= i <= self.entries.len(),
                distinct_keys(self@),
                forall|j: int|
                    0 <= j < self@.len() && (#[trigger] self@[j]).0 == key@ ==> has_key(self@, key@)
                        && index_of_key(self@, key@) == j,
                forall|j: int| 0 <= j < i ==> (#[trigger] self@[j]).0 != key@,
            decreases self.entries.len() - i,
        {
            if is_word(&self.entries[i].0, key) {
                assert(self@[i as int].0 == key@);
                return Some(i);
            }
            i += 1;
        }
        None
    }

    /// The value under `key`, if the key is there.
    pub fn get(&self, key: &str) -> (value: Option<&String>)
        ensures
            value.deep_view() == spec_lookup(self@, key@),
            value.deep_view() == if self.map().contains_key(key@) {
                Some(self.map()[key@])
            } else {
                None
            },
    {
        proof {
            lemma_pairs_map_keys(self@);
        }
        match self.position(key) {
            Some(i) => {
                proof {
                    assert(self@[i as int].0 == key@);
                    lemma_distinct_after(self@, i as int);
                    lemma_pairs_map_value(self@, i as int);
                }
                Some(&self.entries[i].1)
            },
            None => None,
        }
    }

    /// Puts `value` under `key`.
    pub fn insert(&mut self, key: String, value: String)
        ensures
            final(self)@ == spec_insert(old(self)@, key@, value@),
            final(self).map() == old(self).map().insert(key@, value@),
            distinct_keys(final(self)@),
    {
        proof {
            use_type_invariant(&*self);
            lemma_insert(self@, key@, value@);
        }
        let at = self.position(key.as_str());
        let mut taken = StringMap::new();
        std::mem::swap(self, &mut taken);
        let mut entries = taken.entries;
        match at {
            Some(i) => {
                entries.set(i, (key, value));
            },
            None => {
                entries.push((key, value));
            },
        }
        assert(entries.deep_view() == spec_insert(old(self)@, key@, value@));
        *self = StringMap { entries };
    }

    /// The map that holds `pairs`. Where a key occurs more than once, its last value
    /// counts.
    pub fn from_pairs(pairs: Vec<(String, String)>) -> (map: StringMap)
        ensures
            map@ == spec_insert_all(Seq::empty(), pairs.deep_view()),
            map.map() == pairs_map(pairs.deep_view()),
            distinct_keys(map@),
    {
        let mut map = StringMap::new();
        let mut i: usize = 0;
        while i < pairs.len()
            invariant
                0 <= i <= pairs.len(),
                map@ == spec_insert_all(Seq::empty(), pairs.deep_view().take(i as int)),
            decreases pairs.len() - i,
        {
            assert(pairs.deep_view().take(i + 1).drop_last() == pairs.deep_view().take(i as int));
            map.insert(pairs[i].0.clone(), pairs[i].1.clone());
            i += 1;
        }
        proof {
            assert(pairs.deep_view().take(i as int) == pairs.deep_view());
            lemma_insert_all(Seq::empty(), pairs.deep_view());
            assert(Seq::<(Seq<char>, Seq<char>)>::empty() + pairs.deep_view() == pairs.deep_view());
        }
        map
    }
}

} // verus!
