//! The document that a parse yields: a finite mapping from keys to values.

use std::borrow::Cow;
use vstd::prelude::*;
use vstd::set_lib::lemma_subset_equality;
use vstd::std_specs::cmp::PartialEqSpecImpl;
use crate::text::str_eq;

verus! {

/// A key with its value. A well-known key is the shared constant, any other
/// key a string of its own.
pub type Entry = (Cow<'static, str>, String);

/// A parsed os-release document. Its view is the mapping from each key to
/// its value. The entries are kept in a vector in which no key occurs twice.
#[derive(Debug)]
pub struct OsRelease {
    entries: Vec<Entry>,
}

/// Whether one of `entries` has the key `key`.
spec fn has_key(entries: Seq<Entry>, key: Seq<char>) -> bool {
    exists|i: int| 0 <= i < entries.len() && (#[trigger] entries[i]).0@ == key
}

/// The value of an entry of `entries` that has the key `key`.
spec fn value_of(entries: Seq<Entry>, key: Seq<char>) -> Seq<char> {
    entries[choose|i: int| 0 <= i < entries.len() && (#[trigger] entries[i]).0@ == key].1@
}

/// The mapping that `entries` stands for.
spec fn mapping(entries: Seq<Entry>) -> Map<Seq<char>, Seq<char>> {
    Map::new(|key: Seq<char>| has_key(entries, key), |key: Seq<char>| value_of(entries, key))
}

/// Whether no two of `entries` have the same key.
spec fn distinct(entries: Seq<Entry>) -> bool {
    forall|i: int, j: int|
        0 <= i < j < entries.len() ==> (#[trigger] entries[i]).0@ != (#[trigger] entries[j]).0@
}

/// Each entry is found in the mapping under its key.
proof fn lemma_mapping_entry(entries: Seq<Entry>, i: int)
    requires
        distinct(entries),
        0 <= i < entries.len(),
    ensures
        mapping(entries).contains_key(entries[i].0@),
        mapping(entries)[entries[i].0@] == entries[i].1@,
{
    assert(has_key(entries, entries[i].0@));
}

/// Appending an entry with a new key inserts it into the mapping.
proof fn lemma_mapping_push(entries: Seq<Entry>, entry: Entry)
    requires
        distinct(entries),
        !has_key(entries, entry.0@),
    ensures
        distinct(entries.push(entry)),
        mapping(entries.push(entry)) == mapping(entries).insert(entry.0@, entry.1@),
{
    let after = entries.push(entry);
    assert forall|key: Seq<char>|
        has_key(after, key) <==> (has_key(entries, key) || key == entry.0@)
    by {
        if has_key(entries, key) {
            let i = choose|i: int| 0 <= i < entries.len() && (#[trigger] entries[i]).0@ == key;
            assert(after[i].0@ == key);
        }
        if key == entry.0@ {
            assert(after[entries.len() as int].0@ == key);
        }
    }
    let expected = mapping(entries).insert(entry.0@, entry.1@);
    assert forall|key: Seq<char>| has_key(after, key) implies mapping(after)[key] == expected[key]
    by {
        let i = choose|i: int| 0 <= i < after.len() && (#[trigger] after[i]).0@ == key;
        lemma_mapping_entry(after, i);
        if i < entries.len() {
            lemma_mapping_entry(entries, i);
        }
    }
}

/// Replacing an entry by one with the same key sets that key in the mapping.
proof fn lemma_mapping_update(entries: Seq<Entry>, at: int, entry: Entry)
    requires
        distinct(entries),
        0 <= at < entries.len(),
        entries[at].0@ == entry.0@,
    ensures
        distinct(entries.update(at, entry)),
        mapping(entries.update(at, entry)) == mapping(entries).insert(entry.0@, entry.1@),
{
    let after = entries.update(at, entry);
    assert forall|key: Seq<char>| has_key(after, key) <==> has_key(entries, key) by {
        if has_key(entries, key) {
            let i = choose|i: int| 0 <= i < entries.len() && (#[trigger] entries[i]).0@ == key;
            assert(after[i].0@ == key);
        }
    }
    assert(has_key(entries, entry.0@));
    let expected = mapping(entries).insert(entry.0@, entry.1@);
    assert forall|key: Seq<char>| has_key(after, key) implies mapping(after)[key] == expected[key]
    by {
        let i = choose|i: int| 0 <= i < after.len() && (#[trigger] after[i]).0@ == key;
        lemma_mapping_entry(after, i);
        if i != at {
            lemma_mapping_entry(entries, i);
        }
    }
}

/// Taking an entry out removes its key from the mapping.
proof fn lemma_mapping_remove(entries: Seq<Entry>, at: int)
    requires
        distinct(entries),
        0 <= at < entries.len(),
    ensures
        distinct(entries.remove(at)),
        mapping(entries.remove(at)) == mapping(entries).remove(entries[at].0@),
{
    let after = entries.remove(at);
    let gone = entries[at].0@;
    assert forall|i: int, j: int| 0 <= i < j < after.len() implies
        (#[trigger] after[i]).0@ != (#[trigger] after[j]).0@
    by {}
    assert forall|key: Seq<char>|
        has_key(after, key) <==> (has_key(entries, key) && key != gone)
    by {
        if has_key(entries, key) && key != gone {
            let i = choose|i: int| 0 <= i < entries.len() && (#[trigger] entries[i]).0@ == key;
            let i0 = if i < at { i } else { i - 1 };
            assert(after[i0] == entries[i]);
        }
        if has_key(after, key) {
            let i = choose|i: int| 0 <= i < after.len() && (#[trigger] after[i]).0@ == key;
            assert(after[i] == entries[if i < at { i } else { i + 1 }]);
        }
    }
    let expected = mapping(entries).remove(gone);
    assert forall|key: Seq<char>| has_key(after, key) implies mapping(after)[key] == expected[key]
    by {
        let i = choose|i: int| 0 <= i < after.len() && (#[trigger] after[i]).0@ == key;
        let i0 = if i < at { i } else { i + 1 };
        lemma_mapping_entry(after, i);
        lemma_mapping_entry(entries, i0);
    }
}

/// The mapping has as many keys as there are entries.
proof fn lemma_mapping_len(entries: Seq<Entry>)
    requires
        distinct(entries),
    ensures
        mapping(entries).dom().finite(),
        mapping(entries).len() == entries.len(),
    decreases entries.len(),
{
    if entries.len() == 0 {
        assert(mapping(entries) =~= Map::<Seq<char>, Seq<char>>::empty());
    } else {
        let init = entries.drop_last();
        let last = entries.last();
        assert(!has_key(init, last.0@));
        lemma_mapping_len(init);
        lemma_mapping_push(init, last);
        assert(init.push(last) =~= entries);
    }
}

/// The text of a key.
fn key_text<'a>(key: &'a Cow<'static, str>) -> (r: &'a str)
    ensures
        r@ == key@,
{
    match key {
        Cow::Borrowed(shared) => shared,
        Cow::Owned(own) => own.as_str(),
    }
}

impl View for OsRelease {
    type V = Map<Seq<char>, Seq<char>>;

    closed spec fn view(&self) -> Map<Seq<char>, Seq<char>> {
        mapping(self.entries@)
    }
}

impl OsRelease {
    /// No key occurs twice.
    #[verifier::type_invariant]
    spec fn well_formed(&self) -> bool {
        distinct(self.entries@)
    }

    /// The index of the entry with the key `key`.
    fn index_of(&self, key: &str) -> (r: Option<usize>)
        ensures
            match r {
                Some(i) => i < self.entries@.len() && self.entries@[i as int].0@ == key@,
                None => !has_key(self.entries@, key@),
            },
    {
        let mut i: usize = 0;
        while i < self.entries.len()
            invariant
                i <= self.entries@.len(),
                forall|j: int| 0 <= j < i ==> (#[trigger] self.entries@[j]).0@ != key@,
            decreases self.entries@.len() - i,
        {
            if str_eq(key_text(&self.entries[i].0), key) {
                return Some(i);
            }
            i += 1;
        }
        None
    }

    /// The empty document.
    pub fn new() -> (r: Self)
        ensures
            r@ == Map::<Seq<char>, Seq<char>>::empty(),
    {
        OsRelease { entries: Vec::new() }
    }

    /// The number of keys.
    pub fn len(&self) -> (r: usize)
        ensures
            self@.dom().finite(),
            r == self@.len(),
    {
        proof {
            use_type_invariant(self);
            lemma_mapping_len(self.entries@);
        }
        self.entries.len()
    }

    /// Whether the document has no key.
    pub fn is_empty(&self) -> (r: bool)
        ensures
            r == (self@ == Map::<Seq<char>, Seq<char>>::empty()),
    {
        proof {
            use_type_invariant(self);
            lemma_mapping_len(self.entries@);
            if self.entries@.len() == 0 {
                assert(self@ =~= Map::<Seq<char>, Seq<char>>::empty());
            }
        }
        self.entries.len() == 0
    }

    /// Whether the document has the key `key`.
    pub fn contains_key(&self, key: &str) -> (r: bool)
        ensures
            r == self@.contains_key(key@),
    {
        self.index_of(key).is_some()
    }

    /// The value of the key `key`, if the document has that key.
    pub fn get(&self, key: &str) -> (r: Option<&str>)
        ensures
            match r {
                Some(value) => self@.contains_key(key@) && self@[key@] == value@,
                None => !self@.contains_key(key@),
            },
    {
        match self.index_of(key) {
            Some(i) => {
                proof {
                    use_type_invariant(self);
                    lemma_mapping_entry(self.entries@, i as int);
                }
                Some(self.entries[i].1.as_str())
            },
            None => None,
        }
    }

    /// Sets `key` to `value` and returns the value that `key` had before, if
    /// it had one. No other key changes.
    pub fn insert(&mut self, key: Cow<'static, str>, value: String) -> (r: Option<String>)
        ensures
            final(self)@ == old(self)@.insert(key@, value@),
            match r {
                Some(before) => old(self)@.contains_key(key@) && old(self)@[key@] == before@,
                None => !old(self)@.contains_key(key@),
            },
    {
        proof {
            use_type_invariant(&*self);
        }
        let found = self.index_of(key_text(&key));
        let mut entries: Vec<Entry> = Vec::new();
        std::mem::swap(&mut self.entries, &mut entries);
        let before = match found {
            Some(i) => {
                proof {
                    lemma_mapping_entry(entries@, i as int);
                    lemma_mapping_update(entries@, i as int, (entries@[i as int].0, value));
                }
                let mut before = value;
                std::mem::swap(&mut entries[i].1, &mut before);
                Some(before)
            },
            None => {
                proof {
                    lemma_mapping_push(entries@, (key, value));
                }
                entries.push((key, value));
                None
            },
        };
        self.entries = entries;
        before
    }

    /// Takes `key` out of the document and returns the value that it had, if
    /// it had one. No other key changes.
    pub fn remove(&mut self, key: &str) -> (r: Option<String>)
        ensures
            final(self)@ == old(self)@.remove(key@),
            match r {
                Some(before) => old(self)@.contains_key(key@) && old(self)@[key@] == before@,
                None => !old(self)@.contains_key(key@),
            },
    {
        proof {
            use_type_invariant(&*self);
        }
        match self.index_of(key) {
            Some(i) => {
                proof {
                    lemma_mapping_entry(self.entries@, i as int);
                    lemma_mapping_remove(self.entries@, i as int);
                }
                let mut entries: Vec<Entry> = Vec::new();
                std::mem::swap(&mut self.entries, &mut entries);
                let entry = entries.remove(i);
                self.entries = entries;
                Some(entry.1)
            },
            None => None,
        }
    }

    /// The entries of the document: each key once, with its value.
    pub fn into_entries(self) -> (r: Vec<Entry>)
        ensures
            r@.len() == self@.len(),
            forall|i: int|
                0 <= i < r@.len() ==> self@.contains_key((#[trigger] r@[i]).0@) && self@[r@[i].0@]
                    == r@[i].1@,
            forall|i: int, j: int|
                0 <= i < j < r@.len() ==> (#[trigger] r@[i]).0@ != (#[trigger] r@[j]).0@,
    {
        proof {
            use_type_invariant(&self);
            lemma_mapping_len(self.entries@);
            assert forall|i: int| 0 <= i < self.entries@.len() implies self@.contains_key(
                (#[trigger] self.entries@[i]).0@,
            ) && self@[self.entries@[i].0@] == self.entries@[i].1@ by {
                lemma_mapping_entry(self.entries@, i);
            }
        }
        self.entries
    }
}

/// Two documents are equal where they map the same keys to the same values,
/// in whatever order their entries are kept.
impl PartialEq for OsRelease {
    fn eq(&self, other: &Self) -> (r: bool) {
        proof {
            use_type_invariant(self);
            use_type_invariant(other);
            lemma_mapping_len(self.entries@);
            lemma_mapping_len(other.entries@);
        }
        if self.entries.len() != other.entries.len() {
            return false;
        }
        let mut i: usize = 0;
        while i < self.entries.len()
            invariant
                i <= self.entries@.len(),
                distinct(self.entries@),
                forall|j: int|
                    0 <= j < i ==> other@.contains_key((#[trigger] self.entries@[j]).0@)
                        && other@[self.entries@[j].0@] == self.entries@[j].1@,
            decreases self.entries@.len() - i,
        {
            proof {
                lemma_mapping_entry(self.entries@, i as int);
            }
            match other.get(key_text(&self.entries[i].0)) {
                Some(value) => {
                    if !str_eq(value, self.entries[i].1.as_str()) {
                        return false;
                    }
                },
                None => {
                    return false;
                },
            }
            i += 1;
        }
        proof {
            assert forall|key: Seq<char>| self@.contains_key(key) implies other@.contains_key(key)
                && other@[key] == self@[key] by {
                let j = choose|j: int|
                    0 <= j < self.entries@.len() && (#[trigger] self.entries@[j]).0@ == key;
                lemma_mapping_entry(self.entries@, j);
            }
            lemma_subset_equality(self@.dom(), other@.dom());
            assert(self@ =~= other@);
        }
        true
    }
}

impl PartialEqSpecImpl for OsRelease {
    open spec fn obeys_eq_spec() -> bool {
        true
    }

    open spec fn eq_spec(&self, other: &Self) -> bool {
        self@ == other@
    }
}

} // verus!
