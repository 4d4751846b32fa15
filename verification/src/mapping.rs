//! The output mapping: file name to payload, one payload per file name.

use vstd::prelude::*;
use vstd::string::StringExecFns;

verus! {

/// No two entries carry the same key.
pub open spec fn distinct_keys(entries: Seq<(String, String)>) -> bool {
    forall|i: int, j: int|
        0 <= i < j < entries.len() ==> (#[trigger] entries[i]).0@ != (#[trigger] entries[j]).0@
}

/// The map that results from inserting `entries` in order into the empty map.
pub open spec fn map_of(entries: Seq<(String, String)>) -> Map<Seq<char>, Seq<char>>
    decreases entries.len(),
{
    if entries.len() == 0 {
        Map::empty()
    } else {
        map_of(entries.drop_last()).insert(entries.last().0@, entries.last().1@)
    }
}

/// `entries` lists `map` exactly: every entry is a pair of the map, every key
/// of the map has an entry, and no key is listed twice.
pub open spec fn lists(entries: Seq<(String, String)>, map: Map<Seq<char>, Seq<char>>) -> bool {
    &&& distinct_keys(entries)
    &&& forall|i: int|
        0 <= i < entries.len() ==> map.contains_pair(
            (#[trigger] entries[i]).0@,
            entries[i].1@,
        )
    &&& forall|key: Seq<char>| #[trigger]
        map.contains_key(key) ==> exists|i: int|
            0 <= i < entries.len() && (#[trigger] entries[i]).0@ == key
}

/// A key of `map_of(entries)` is the key of one of the entries, and the other
/// way round.
proof fn lemma_map_of_keys(entries: Seq<(String, String)>, key: Seq<char>)
    ensures
        map_of(entries).contains_key(key) <==> exists|i: int|
            0 <= i < entries.len() && (#[trigger] entries[i]).0@ == key,
    decreases entries.len(),
{
    if entries.len() > 0 {
        let front = entries.drop_last();
        lemma_map_of_keys(front, key);
        if map_of(entries).contains_key(key) {
            if entries.last().0@ == key {
                assert(entries[entries.len() - 1].0@ == key);
            } else {
                let i = choose|i: int| 0 <= i < front.len() && (#[trigger] front[i]).0@ == key;
                assert(entries[i].0@ == key);
            }
        }
        if exists|i: int| 0 <= i < entries.len() && (#[trigger] entries[i]).0@ == key {
            let i = choose|i: int| 0 <= i < entries.len() && (#[trigger] entries[i]).0@ == key;
            if i < front.len() {
                assert(front[i].0@ == key);
            }
        }
    }
}

/// With distinct keys, every entry is a pair of `map_of(entries)`.
proof fn lemma_map_of_pairs(entries: Seq<(String, String)>, i: int)
    requires
        distinct_keys(entries),
        0 <= i < entries.len(),
    ensures
        map_of(entries).contains_pair(entries[i].0@, entries[i].1@),
    decreases entries.len(),
{
    let front = entries.drop_last();
    if i < front.len() {
        assert(distinct_keys(front)) by {
            assert forall|a: int, b: int| 0 <= a < b < front.len() implies (#[trigger] front[a]).0@
                != (#[trigger] front[b]).0@ by {
                assert(entries[a].0@ != entries[b].0@);
            }
        }
        lemma_map_of_pairs(front, i);
        assert(entries[i].0@ != entries[entries.len() - 1].0@);
    }
}

/// With distinct keys, the map has as many keys as there are entries.
proof fn lemma_map_of_len(entries: Seq<(String, String)>)
    requires
        distinct_keys(entries),
    ensures
        map_of(entries).dom().finite(),
        map_of(entries).dom().len() == entries.len(),
    decreases entries.len(),
{
    if entries.len() > 0 {
        let front = entries.drop_last();
        assert(distinct_keys(front)) by {
            assert forall|a: int, b: int| 0 <= a < b < front.len() implies (#[trigger] front[a]).0@
                != (#[trigger] front[b]).0@ by {
                assert(entries[a].0@ != entries[b].0@);
            }
        }
        lemma_map_of_len(front);
        let key = entries.last().0@;
        lemma_map_of_keys(front, key);
        if map_of(front).contains_key(key) {
            let i = choose|i: int| 0 <= i < front.len() && (#[trigger] front[i]).0@ == key;
            assert(entries[i].0@ != entries[entries.len() - 1].0@);
        }
        assert(map_of(entries).dom() == map_of(front).dom().insert(key));
    }
}

/// Replacing the value of the entry at `i` has the effect of an insertion
/// under that entry's key.
proof fn lemma_map_of_replace(entries: Seq<(String, String)>, i: int, entry: (String, String))
    requires
        distinct_keys(entries),
        0 <= i < entries.len(),
        entry.0@ == entries[i].0@,
    ensures
        map_of(entries.update(i, entry)) == map_of(entries).insert(entry.0@, entry.1@),
        distinct_keys(entries.update(i, entry)),
    decreases entries.len(),
{
    let replaced = entries.update(i, entry);
    let front = entries.drop_last();
    assert(distinct_keys(replaced)) by {
        assert forall|a: int, b: int| 0 <= a < b < replaced.len() implies (
        #[trigger] replaced[a]).0@ != (#[trigger] replaced[b]).0@ by {
            assert(entries[a].0@ != entries[b].0@);
        }
    }
    if i == entries.len() - 1 {
        assert(replaced.drop_last() == front);
        assert(map_of(replaced) == map_of(entries).insert(entry.0@, entry.1@));
    } else {
        assert(distinct_keys(front)) by {
            assert forall|a: int, b: int| 0 <= a < b < front.len() implies (#[trigger] front[a]).0@
                != (#[trigger] front[b]).0@ by {
                assert(entries[a].0@ != entries[b].0@);
            }
        }
        lemma_map_of_replace(front, i, entry);
        assert(replaced.drop_last() == front.update(i, entry));
        assert(entries[i].0@ != entries[entries.len() - 1].0@);
        assert(map_of(replaced) == map_of(entries).insert(entry.0@, entry.1@));
    }
}

/// A finite mapping from file name to payload. A key occurs at most once;
/// inserting under a key that is present replaces its payload.
pub struct OutputMapping {
    entries: Vec<(String, String)>,
}

impl View for OutputMapping {
    type V = Map<Seq<char>, Seq<char>>;

    closed spec fn view(&self) -> Map<Seq<char>, Seq<char>> {
        map_of(self.entries@)
    }
}

impl OutputMapping {
    #[verifier::type_invariant]
    spec fn keys_are_distinct(&self) -> bool {
        distinct_keys(self.entries@)
    }

    /// The empty mapping.
    pub fn new() -> (mapping: Self)
        ensures
            mapping@ == Map::<Seq<char>, Seq<char>>::empty(),
    {
        OutputMapping { entries: Vec::new() }
    }

    /// The position of the entry with the given key, if there is one.
    fn position(&self, key: &String) -> (found: Option<usize>)
        ensures
            match found {
                Some(i) => i < self.entries@.len() && self.entries@[i as int].0@ == key@,
                None => forall|i: int|
                    0 <= i < self.entries@.len() ==> (#[trigger] self.entries@[i]).0@ != key@,
            },
    {
        let mut i: usize = 0;
        while i < self.entries.len()
            invariant
                i <= self.entries@.len(),
                forall|j: int| 0 <= j < i ==> (#[trigger] self.entries@[j]).0@ != key@,
            decreases self.entries.len() - i,
        {
            if self.entries[i].0 == *key {
                return Some(i);
            }
            i += 1;
        }
        None
    }

    /// Associates `value` with `key`, replacing what `key` was associated with.
    pub fn insert(&mut self, key: String, value: String)
        ensures
            final(self)@ == old(self)@.insert(key@, value@),
    {
        proof {
            use_type_invariant(&*self);
        }
        let found = self.position(&key);
        let mut entries: Vec<(String, String)> = Vec::new();
        std::mem::swap(&mut entries, &mut self.entries);
        match found {
            Some(i) => {
                proof {
                    lemma_map_of_replace(entries@, i as int, (key, value));
                }
                entries.set(i, (key, value));
            },
            None => {
                proof {
                    let extended = entries@.push((key, value));
                    assert(extended.drop_last() == entries@);
                }
                entries.push((key, value));
            },
        }
        self.entries = entries;
    }

    /// The payload associated with `key`, if there is one.
    pub fn get(&self, key: &str) -> (value: Option<&String>)
        ensures
            match value {
                Some(payload) => self@.contains_pair(key@, payload@),
                None => !self@.contains_key(key@),
            },
    {
        proof {
            use_type_invariant(self);
        }
        let owned = String::from_str(key);
        match self.position(&owned) {
            Some(i) => {
                proof {
                    lemma_map_of_pairs(self.entries@, i as int);
                }
                Some(&self.entries[i].1)
            },
            None => {
                proof {
                    lemma_map_of_keys(self.entries@, key@);
                }
                None
            },
        }
    }

    /// Whether `key` is associated with a payload.
    pub fn contains_key(&self, key: &str) -> (present: bool)
        ensures
            present == self@.contains_key(key@),
    {
        self.get(key).is_some()
    }

    /// The number of entries.
    pub fn len(&self) -> (count: usize)
        ensures
            self@.dom().finite(),
            count == self@.len(),
    {
        proof {
            use_type_invariant(self);
            lemma_map_of_len(self.entries@);
        }
        self.entries.len()
    }

    /// Whether the mapping has no entry.
    pub fn is_empty(&self) -> (empty: bool)
        ensures
            empty == (self@ == Map::<Seq<char>, Seq<char>>::empty()),
    {
        proof {
            use_type_invariant(self);
            lemma_map_of_len(self.entries@);
            if self.entries@.len() > 0 {
                lemma_map_of_pairs(self.entries@, 0);
            }
        }
        self.entries.len() == 0
    }

    /// The entries as pairs of file name and payload, each key once, in no
    /// particular order.
    pub fn entries(&self) -> (entries: &Vec<(String, String)>)
        ensures
            lists(entries@, self@),
            self@.dom().finite(),
            entries@.len() == self@.len(),
    {
        proof {
            use_type_invariant(self);
            lemma_map_of_len(self.entries@);
            assert forall|i: int| 0 <= i < self.entries@.len() implies self@.contains_pair(
                (#[trigger] self.entries@[i]).0@,
                self.entries@[i].1@,
            ) by {
                lemma_map_of_pairs(self.entries@, i);
            }
            assert forall|key: Seq<char>| #[trigger] self@.contains_key(key) implies exists|i: int|
                0 <= i < self.entries@.len() && (#[trigger] self.entries@[i]).0@ == key by {
                lemma_map_of_keys(self.entries@, key);
            }
        }
        &self.entries
    }
}

} // verus!
