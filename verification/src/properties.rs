//! A map from text to text, as the protocol's property tables use it.

use vstd::prelude::*;

verus! {

/// Whether some entry has the key `key`.
pub open spec fn has_key(entries: Seq<(String, String)>, key: Seq<char>) -> bool {
    exists|i: int| 0 <= i < entries.len() && (#[trigger] entries[i]).0@ == key
}

/// The position of an entry with the key `key`.
pub open spec fn key_index(entries: Seq<(String, String)>, key: Seq<char>) -> int {
    choose|i: int| 0 <= i < entries.len() && (#[trigger] entries[i]).0@ == key
}

/// Whether no key occurs twice.
pub open spec fn distinct_keys(entries: Seq<(String, String)>) -> bool {
    forall|i: int, j: int|
        0 <= i < j < entries.len() ==> (#[trigger] entries[i]).0@ != (#[trigger] entries[j]).0@
}

/// The map that a list of entries with distinct keys stands for.
pub open spec fn entry_map(entries: Seq<(String, String)>) -> Map<Seq<char>, Seq<char>> {
    Map::new(|key: Seq<char>| has_key(entries, key), |key: Seq<char>| entries[key_index(entries, key)].1@)
}

/// A table of properties: each key has one value.
#[derive(Debug)]
pub struct Properties {
    entries: Vec<(String, String)>,
}

impl View for Properties {
    type V = Map<Seq<char>, Seq<char>>;

    closed spec fn view(&self) -> Map<Seq<char>, Seq<char>> {
        entry_map(self.entries@)
    }
}

impl Properties {
    #[verifier::type_invariant]
    spec fn keys_are_distinct(self) -> bool {
        distinct_keys(self.entries@)
    }

    /// Returns an empty table.
    pub fn new() -> (properties: Properties)
        ensures
            properties@ == Map::<Seq<char>, Seq<char>>::empty(),
    {
        let properties = Properties { entries: Vec::new() };
        assert(properties@ =~= Map::<Seq<char>, Seq<char>>::empty());
        properties
    }

    /// Returns the table in which `key` has the value `value` and every other key is as before.
    pub fn insert(self, key: String, value: String) -> (properties: Properties)
        ensures
            properties@ == self@.insert(key@, value@),
    {
        proof {
            use_type_invariant(&self);
        }
        let ghost before = self.entries@;
        let mut entries = self.entries;
        let place = position_of(&entries, key.as_str());
        match place {
            Some(i) => {
                entries.set(i, (key, value));
                proof {
                    lemma_replace_entry(before, i as int, (key, value));
                }
            },
            None => {
                entries.push((key, value));
                proof {
                    lemma_push_entry(before, (key, value));
                }
            },
        }
        Properties { entries }
    }

    /// Returns the value of `key`, if there is one.
    pub fn get(&self, key: &str) -> (value: Option<&String>)
        ensures
            match value {
                Some(text) => self@.contains_key(key@) && text@ == self@[key@],
                None => !self@.contains_key(key@),
            },
    {
        proof {
            use_type_invariant(self);
        }
        match position_of(&self.entries, key) {
            Some(i) => {
                proof {
                    lemma_entry_value(self.entries@, i as int);
                }
                Some(&self.entries[i].1)
            },
            None => None,
        }
    }

    /// Returns the table of entries with distinct keys.
    pub(crate) fn from_distinct(entries: Vec<(String, String)>) -> (properties: Properties)
        requires
            distinct_keys(entries@),
        ensures
            properties@ == entry_map(entries@),
    {
        Properties { entries }
    }

    /// Returns the entries of the table, in no particular order.
    pub fn to_entries(&self) -> (entries: Vec<(String, String)>)
        ensures
            distinct_keys(entries@),
            entry_map(entries@) == self@,
    {
        proof {
            use_type_invariant(self);
        }
        let mut entries: Vec<(String, String)> = Vec::new();
        let mut i: usize = 0;
        while i < self.entries.len()
            invariant
                i <= self.entries.len(),
                entries.len() == i,
                forall|j: int| 0 <= j < i ==> #[trigger] entries@[j] == self.entries@[j],
            decreases self.entries.len() - i,
        {
            entries.push((self.entries[i].0.clone(), self.entries[i].1.clone()));
            i = i + 1;
        }
        assert(entries@ =~= self.entries@);
        entries
    }

    /// Returns a table with the same properties.
    pub fn copy(&self) -> (properties: Properties)
        ensures
            properties@ == self@,
    {
        let entries = self.to_entries();
        Properties { entries }
    }

    /// Returns the number of properties.
    pub fn len(&self) -> (count: usize)
        ensures
            self@.dom().finite(),
            count == self@.dom().len(),
    {
        proof {
            use_type_invariant(self);
            lemma_entry_count(self.entries@);
        }
        self.entries.len()
    }
}

/// Returns the position of the first entry with the key `key`.
fn position_of(entries: &Vec<(String, String)>, key: &str) -> (place: Option<usize>)
    ensures
        match place {
            Some(i) => i < entries.len() && entries@[i as int].0@ == key@,
            None => !has_key(entries@, key@),
        },
{
    let wanted = key.to_owned();
    let mut i: usize = 0;
    while i < entries.len()
        invariant
            i <= entries.len(),
            wanted@ == key@,
            forall|j: int| 0 <= j < i ==> (#[trigger] entries@[j]).0@ != key@,
        decreases entries.len() - i,
    {
        if entries[i].0 == wanted {
            return Some(i);
        }
        i = i + 1;
    }
    None
}

proof fn lemma_entry_value(entries: Seq<(String, String)>, i: int)
    requires
        distinct_keys(entries),
        0 <= i < entries.len(),
    ensures
        entry_map(entries).contains_key(entries[i].0@),
        entry_map(entries)[entries[i].0@] == entries[i].1@,
{
    let key = entries[i].0@;
    let j = key_index(entries, key);
    assert(has_key(entries, key));
    assert(entries[j].0@ == key);
    assert(i == j);
}

proof fn lemma_replace_entry(entries: Seq<(String, String)>, i: int, entry: (String, String))
    requires
        distinct_keys(entries),
        0 <= i < entries.len(),
        entries[i].0@ == entry.0@,
    ensures
        distinct_keys(entries.update(i, entry)),
        entry_map(entries.update(i, entry)) == entry_map(entries).insert(entry.0@, entry.1@),
{
    let after = entries.update(i, entry);
    assert(distinct_keys(after)) by {
        assert forall|a: int, b: int| 0 <= a < b < after.len() implies (#[trigger] after[a]).0@ != (
        #[trigger] after[b]).0@ by {
            assert(after[a].0@ == entries[a].0@);
            assert(after[b].0@ == entries[b].0@);
        }
    }
    let goal = entry_map(entries).insert(entry.0@, entry.1@);
    assert forall|key: Seq<char>| entry_map(after).contains_key(key) == goal.contains_key(key) by {
        if has_key(after, key) {
            let j = key_index(after, key);
            assert(entries[j].0@ == after[j].0@);
        }
        if has_key(entries, key) {
            let j = key_index(entries, key);
            assert(after[j].0@ == entries[j].0@);
        }
        assert(after[i].0@ == entry.0@);
    }
    assert forall|key: Seq<char>| entry_map(after).contains_key(key) implies #[trigger] entry_map(
        after,
    )[key] == goal[key] by {
        let j = key_index(after, key);
        assert(after[j].0@ == key);
        lemma_entry_value(after, j);
        if j != i {
            assert(entries[j].0@ == key);
            assert(entries[i].0@ == entry.0@);
            lemma_entry_value(entries, j);
        }
    }
    assert(entry_map(after) =~= goal);
}

proof fn lemma_push_entry(entries: Seq<(String, String)>, entry: (String, String))
    requires
        distinct_keys(entries),
        !has_key(entries, entry.0@),
    ensures
        distinct_keys(entries.push(entry)),
        entry_map(entries.push(entry)) == entry_map(entries).insert(entry.0@, entry.1@),
{
    let after = entries.push(entry);
    let last = entries.len() as int;
    assert(distinct_keys(after)) by {
        assert forall|a: int, b: int| 0 <= a < b < after.len() implies (#[trigger] after[a]).0@ != (
        #[trigger] after[b]).0@ by {
            assert(after[a] == entries[a]);
            if b < last {
                assert(after[b] == entries[b]);
            }
        }
    }
    let goal = entry_map(entries).insert(entry.0@, entry.1@);
    assert(after[last] == entry);
    assert forall|key: Seq<char>| entry_map(after).contains_key(key) == goal.contains_key(key) by {
        if has_key(after, key) {
            let j = key_index(after, key);
            if j < last {
                assert(entries[j] == after[j]);
            }
        }
        if has_key(entries, key) {
            let j = key_index(entries, key);
            assert(after[j] == entries[j]);
        }
    }
    assert forall|key: Seq<char>| entry_map(after).contains_key(key) implies #[trigger] entry_map(
        after,
    )[key] == goal[key] by {
        let j = key_index(after, key);
        assert(after[j].0@ == key);
        lemma_entry_value(after, j);
        if j < last {
            assert(entries[j] == after[j]);
            lemma_entry_value(entries, j);
        }
    }
    assert(entry_map(after) =~= goal);
}

proof fn lemma_entry_count(entries: Seq<(String, String)>)
    requires
        distinct_keys(entries),
    ensures
        entry_map(entries).dom().finite(),
        entry_map(entries).dom().len() == entries.len(),
    decreases entries.len(),
{
    if entries.len() == 0 {
        assert(entry_map(entries).dom() =~= Set::empty());
    } else {
        let rest = entries.drop_last();
        let last = entries.last();
        assert(rest.push(last) =~= entries);
        assert(distinct_keys(rest)) by {
            assert forall|a: int, b: int| 0 <= a < b < rest.len() implies (#[trigger] rest[a]).0@ != (
            #[trigger] rest[b]).0@ by {
                assert(rest[a] == entries[a]);
                assert(rest[b] == entries[b]);
            }
        }
        assert(!has_key(rest, last.0@)) by {
            if has_key(rest, last.0@) {
                let j = key_index(rest, last.0@);
                assert(rest[j] == entries[j]);
                assert(entries[entries.len() - 1] == last);
            }
        }
        lemma_entry_count(rest);
        lemma_push_entry(rest, last);
        assert(entry_map(entries).dom() =~= entry_map(rest).dom().insert(last.0@));
    }
}

/// A property that was set is found under its key, with the value that it was set to last; the others
/// are found as before, and a copy holds the same.
pub proof fn law_properties_are_found(
    properties: Properties,
    key: String,
    value: String,
    grown: Properties,
    wanted: &str,
    found: Option<&String>,
    before: Option<&String>,
    copied: Properties,
    again: Option<&String>,
)
    requires
        call_ensures(Properties::insert, (properties, key, value), grown),
        call_ensures(Properties::get, (&grown, wanted), found),
        call_ensures(Properties::get, (&properties, wanted), before),
        call_ensures(Properties::copy, (&grown,), copied),
        call_ensures(Properties::get, (&copied, wanted), again),
    ensures
        wanted@ == key@ ==> (found matches Some(text) && text@ == value@),
        wanted@ != key@ ==> (found is Some <==> before is Some),
        wanted@ != key@ ==> (found matches Some(text) ==> text@ == before->0@),
        found is Some <==> again is Some,
        found matches Some(text) ==> text@ == again->0@,
{
}

/// An empty table holds no properties.
pub proof fn law_empty_tables_hold_nothing(
    properties: Properties,
    wanted: &str,
    found: Option<&String>,
    count: usize,
)
    requires
        call_ensures(Properties::new, (), properties),
        call_ensures(Properties::get, (&properties, wanted), found),
        call_ensures(Properties::len, (&properties,), count),
    ensures
        found is None,
        count == 0,
{
    assert(properties@.dom() =~= Set::<Seq<char>>::empty());
}

} // verus!
