//! A table from text keys to values, each key held once, as the JSON objects
//! of the published indexes are.

use vstd::prelude::*;
use crate::text::str_equals;

verus! {

/// A table from text keys to values.
#[derive(Debug)]
pub struct KeyedTable<V> {
    entries: Vec<(String, V)>,
}

/// The map that a sequence of entries stands for: where a key occurs more
/// than once, its first entry counts.
pub open spec fn entries_map<V>(entries: Seq<(String, V)>) -> Map<Seq<char>, V>
    decreases entries.len(),
{
    if entries.len() == 0 {
        Map::empty()
    } else {
        entries_map(entries.drop_first()).insert(entries[0].0@, entries[0].1)
    }
}

/// `i` is the first entry whose key is `key`.
pub open spec fn is_first_entry<V>(entries: Seq<(String, V)>, key: Seq<char>, i: int) -> bool {
    &&& 0 <= i < entries.len()
    &&& entries[i].0@ == key
    &&& forall|j: int| 0 <= j < i ==> entries[j].0@ != key
}

/// No key occurs in two entries.
pub open spec fn keys_distinct<V>(entries: Seq<(String, V)>) -> bool {
    forall|i: int, j: int|
        0 <= i < j < entries.len() ==> #[trigger] entries[i].0@ != #[trigger] entries[j].0@
}

impl<V> KeyedTable<V> {
    /// Each key is held once.
    #[verifier::type_invariant]
    closed spec fn keys_held_once(self) -> bool {
        keys_distinct(self.entries@)
    }
}

impl<V> View for KeyedTable<V> {
    type V = Map<Seq<char>, V>;

    closed spec fn view(&self) -> Map<Seq<char>, V> {
        entries_map(self.entries@)
    }
}

/// The first entry with a key gives that key's value.
pub proof fn lemma_first_entry_value<V>(entries: Seq<(String, V)>, key: Seq<char>, i: int)
    requires
        is_first_entry(entries, key, i),
    ensures
        entries_map(entries).contains_key(key),
        entries_map(entries)[key] == entries[i].1,
    decreases entries.len(),
{
    if i > 0 {
        let rest = entries.drop_first();
        assert(is_first_entry(rest, key, i - 1)) by {
            assert forall|j: int| 0 <= j < i - 1 implies rest[j].0@ != key by {
                assert(rest[j] == entries[j + 1]);
            }
        }
        lemma_first_entry_value(rest, key, i - 1);
    }
}

/// A key that no entry has is not in the map.
pub proof fn lemma_absent_key<V>(entries: Seq<(String, V)>, key: Seq<char>)
    requires
        forall|j: int| 0 <= j < entries.len() ==> entries[j].0@ != key,
    ensures
        !entries_map(entries).contains_key(key),
    decreases entries.len(),
{
    if entries.len() > 0 {
        let rest = entries.drop_first();
        assert forall|j: int| 0 <= j < rest.len() implies rest[j].0@ != key by {
            assert(rest[j] == entries[j + 1]);
        }
        lemma_absent_key(rest, key);
    }
}

/// Appending an entry with a new key adds that key.
pub proof fn lemma_push_new_key<V>(entries: Seq<(String, V)>, key: String, value: V)
    requires
        forall|j: int| 0 <= j < entries.len() ==> entries[j].0@ != key@,
    ensures
        entries_map(entries.push((key, value))) == entries_map(entries).insert(key@, value),
    decreases entries.len(),
{
    let pushed = entries.push((key, value));
    if entries.len() == 0 {
        assert(pushed.drop_first() =~= Seq::<(String, V)>::empty());
        assert(entries_map(pushed.drop_first()) == Map::<Seq<char>, V>::empty());
        assert(entries_map(entries) == Map::<Seq<char>, V>::empty());
        assert(pushed[0] == (key, value));
        assert(entries_map(pushed) == entries_map(pushed.drop_first()).insert(
            pushed[0].0@,
            pushed[0].1,
        ));
    } else {
        let rest = entries.drop_first();
        assert forall|j: int| 0 <= j < rest.len() implies rest[j].0@ != key@ by {
            assert(rest[j] == entries[j + 1]);
        }
        lemma_push_new_key(rest, key, value);
        assert(pushed.drop_first() =~= rest.push((key, value)));
        assert(entries[0].0@ != key@);
        assert(entries_map(pushed) =~= entries_map(entries).insert(key@, value));
    }
}

/// Replacing the first entry of a key gives the key its new value.
pub proof fn lemma_replace_first<V>(entries: Seq<(String, V)>, i: int, key: String, value: V)
    requires
        is_first_entry(entries, key@, i),
    ensures
        entries_map(entries.update(i, (key, value))) == entries_map(entries).insert(key@, value),
    decreases entries.len(),
{
    let updated = entries.update(i, (key, value));
    let rest = entries.drop_first();
    if i == 0 {
        assert(updated.drop_first() =~= rest);
        assert(entries_map(updated) =~= entries_map(entries).insert(key@, value));
    } else {
        assert(is_first_entry(rest, key@, i - 1)) by {
            assert forall|j: int| 0 <= j < i - 1 implies rest[j].0@ != key@ by {
                assert(rest[j] == entries[j + 1]);
            }
        }
        lemma_replace_first(rest, i - 1, key, value);
        assert(updated.drop_first() =~= rest.update(i - 1, (key, value)));
        assert(entries[0].0@ != key@);
        assert(entries_map(updated) =~= entries_map(entries).insert(key@, value));
    }
}

impl<V> KeyedTable<V> {
    /// An empty table.
    pub fn new() -> (res: Self)
        ensures
            res@ == Map::<Seq<char>, V>::empty(),
    {
        KeyedTable { entries: Vec::new() }
    }

    /// The position of the first of `entries` whose key is `key`.
    fn position_in(entries: &Vec<(String, V)>, key: &str) -> (res: Option<usize>)
        ensures
            match res {
                Some(i) => is_first_entry(entries@, key@, i as int),
                None => forall|j: int| 0 <= j < entries@.len() ==> entries@[j].0@ != key@,
            },
    {
        let n = entries.len();
        let mut i: usize = 0;
        while i < n
            invariant
                n == entries@.len(),
                i <= n,
                forall|j: int| 0 <= j < i ==> entries@[j].0@ != key@,
            decreases n - i,
        {
            if str_equals(entries[i].0.as_str(), key) {
                return Some(i);
            }
            i = i + 1;
        }
        None
    }

    /// Gives `key` the value `value`, replacing the value it had.
    pub fn insert(&mut self, key: String, value: V)
        ensures
            final(self)@ == old(self)@.insert(key@, value),
    {
        proof {
            use_type_invariant(&*self);
        }
        let ghost before = self.entries@;
        let mut entries: Vec<(String, V)> = Vec::new();
        std::mem::swap(&mut entries, &mut self.entries);
        assert(entries@ == before);
        match Self::position_in(&entries, key.as_str()) {
            Some(i) => {
                proof {
                    lemma_replace_first(entries@, i as int, key, value);
                }
                entries.set(i, (key, value));
                assert(keys_distinct(entries@)) by {
                    assert forall|a: int, b: int|
                        0 <= a < b < entries@.len() implies #[trigger] entries@[a].0@
                        != #[trigger] entries@[b].0@ by {
                        assert(before[a].0@ != before[b].0@);
                    }
                }
            },
            None => {
                proof {
                    lemma_push_new_key(entries@, key, value);
                }
                entries.push((key, value));
                assert(keys_distinct(entries@)) by {
                    assert forall|a: int, b: int|
                        0 <= a < b < entries@.len() implies #[trigger] entries@[a].0@
                        != #[trigger] entries@[b].0@ by {
                        if b < before.len() {
                            assert(before[a].0@ != before[b].0@);
                        } else {
                            assert(before[a].0@ != key@);
                        }
                    }
                }
            },
        }
        self.entries = entries;
    }

    /// The value of `key`, if it has one.
    pub fn get(&self, key: &str) -> (res: Option<&V>)
        ensures
            match res {
                Some(v) => self@.contains_key(key@) && *v == self@[key@],
                None => !self@.contains_key(key@),
            },
    {
        match Self::position_in(&self.entries, key) {
            Some(i) => {
                proof {
                    lemma_first_entry_value(self.entries@, key@, i as int);
                }
                Some(&self.entries[i].1)
            },
            None => {
                proof {
                    lemma_absent_key(self.entries@, key@);
                }
                None
            },
        }
    }

    /// The entries of the table, each key once.
    pub fn entries(&self) -> (res: &Vec<(String, V)>)
        ensures
            entries_map(res@) == self@,
            keys_distinct(res@),
    {
        proof {
            use_type_invariant(self);
        }
        &self.entries
    }

    /// Whether `key` has a value.
    pub fn contains_key(&self, key: &str) -> (res: bool)
        ensures
            res == self@.contains_key(key@),
    {
        self.get(key).is_some()
    }
}

/// What was last given to a key is what the table holds for it; other keys
/// keep their values.
pub proof fn lemma_insert_then_lookup<V>(
    before: Map<Seq<char>, V>,
    after: Map<Seq<char>, V>,
    key: Seq<char>,
    value: V,
    other: Seq<char>,
)
    requires
        after == before.insert(key, value),
    ensures
        after.contains_key(key),
        after[key] == value,
        other != key ==> (after.contains_key(other) == before.contains_key(other)),
        other != key && before.contains_key(other) ==> after[other] == before[other],
{
}

} // verus!
