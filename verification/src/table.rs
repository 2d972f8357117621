//! A small table keyed by strings that remembers the order in which its keys
//! first came in. Sections and their items are kept in such tables.

use vstd::prelude::*;

verus! {

/// The position of the first entry at or after `from` whose key is `key`, or
/// the number of entries if there is none.
pub open spec fn index_of<W>(entries: Seq<(Seq<char>, W)>, key: Seq<char>, from: int) -> int
    decreases entries.len() - from,
{
    if 0 <= from < entries.len() && entries[from].0 != key {
        index_of(entries, key, from + 1)
    } else {
        from
    }
}

/// The value stored under `key`, if any.
pub open spec fn lookup<W>(entries: Seq<(Seq<char>, W)>, key: Seq<char>) -> Option<W> {
    let i = index_of(entries, key, 0);
    if i < entries.len() {
        Some(entries[i].1)
    } else {
        None
    }
}

/// The entries after `value` has been stored under `key`: in place of the
/// value that the key had, or behind all other entries for a new key.
pub open spec fn put<W>(entries: Seq<(Seq<char>, W)>, key: Seq<char>, value: W) -> Seq<
    (Seq<char>, W),
> {
    let i = index_of(entries, key, 0);
    if i < entries.len() {
        entries.update(i, (key, value))
    } else {
        entries.push((key, value))
    }
}

/// The entries after each of `pairs` has been stored in turn, starting from
/// `entries`.
pub open spec fn put_all<W>(entries: Seq<(Seq<char>, W)>, pairs: Seq<(Seq<char>, W)>) -> Seq<
    (Seq<char>, W),
>
    decreases pairs.len(),
{
    if pairs.len() == 0 {
        entries
    } else {
        let last = pairs.last();
        put(put_all(entries, pairs.drop_last()), last.0, last.1)
    }
}

/// No key occurs twice.
pub open spec fn distinct_keys<W>(entries: Seq<(Seq<char>, W)>) -> bool {
    forall|i: int, j: int|
        0 <= i < j < entries.len() ==> (#[trigger] entries[i]).0 != (#[trigger] entries[j]).0
}

/// `index_of` stops inside the entries, at the first entry with the key.
pub proof fn lemma_index_of<W>(entries: Seq<(Seq<char>, W)>, key: Seq<char>, from: int)
    requires
        0 <= from <= entries.len(),
    ensures
        from <= index_of(entries, key, from) <= entries.len(),
        forall|k: int| from <= k < index_of(entries, key, from) ==> (#[trigger] entries[k]).0 != key,
        index_of(entries, key, from) < entries.len() ==> entries[index_of(entries, key, from)].0
            == key,
    decreases entries.len() - from,
{
    if from < entries.len() && entries[from].0 != key {
        lemma_index_of(entries, key, from + 1);
    }
}

/// The first entry with the key, or the end when no entry has it, is where
/// `index_of` stops.
pub proof fn lemma_index_of_is<W>(
    entries: Seq<(Seq<char>, W)>,
    key: Seq<char>,
    from: int,
    at: int,
)
    requires
        0 <= from <= at <= entries.len(),
        forall|k: int| from <= k < at ==> (#[trigger] entries[k]).0 != key,
        at < entries.len() ==> entries[at].0 == key,
    ensures
        index_of(entries, key, from) == at,
    decreases at - from,
{
    if from < at {
        lemma_index_of_is(entries, key, from + 1, at);
    }
}

/// Storing a value makes it the value of its key, leaves every other key as
/// it was, and keeps the keys distinct.
pub proof fn law_put<W>(entries: Seq<(Seq<char>, W)>, key: Seq<char>, value: W, other: Seq<char>)
    ensures
        lookup(put(entries, key, value), key) == Some(value),
        other != key ==> lookup(put(entries, key, value), other) == lookup(entries, other),
        distinct_keys(entries) ==> distinct_keys(put(entries, key, value)),
{
    let after = put(entries, key, value);
    let i = index_of(entries, key, 0);
    lemma_index_of(entries, key, 0);
    assert forall|k: int| 0 <= k < i implies (#[trigger] after[k]).0 != key by {}
    lemma_index_of_is(after, key, 0, i);
    if other != key {
        let j = index_of(entries, other, 0);
        lemma_index_of(entries, other, 0);
        assert forall|k: int| 0 <= k < j implies (#[trigger] after[k]).0 != other by {}
        if j < entries.len() {
            lemma_index_of_is(after, other, 0, j);
        } else {
            lemma_index_of_is(after, other, 0, after.len() as int);
        }
    }
    if distinct_keys(entries) {
        assert forall|a: int, b: int| 0 <= a < b < after.len() implies (#[trigger] after[a]).0 != (
        #[trigger] after[b]).0 by {}
    }
}

/// Storing pairs one after the other never drops an entry, leaves at least
/// one entry when there is at least one pair, and keeps whatever holds of
/// every value that was there or came in.
pub proof fn lemma_put_all<W>(
    entries: Seq<(Seq<char>, W)>,
    pairs: Seq<(Seq<char>, W)>,
    holds: spec_fn(W) -> bool,
)
    requires
        forall|i: int| 0 <= i < entries.len() ==> holds((#[trigger] entries[i]).1),
        forall|i: int| 0 <= i < pairs.len() ==> holds((#[trigger] pairs[i]).1),
    ensures
        put_all(entries, pairs).len() >= entries.len(),
        pairs.len() > 0 ==> put_all(entries, pairs).len() > 0,
        forall|i: int|
            0 <= i < put_all(entries, pairs).len() ==> holds((#[trigger] put_all(entries, pairs)[i]).1),
    decreases pairs.len(),
{
    if pairs.len() > 0 {
        let before = put_all(entries, pairs.drop_last());
        assert forall|i: int| 0 <= i < pairs.drop_last().len() implies holds(
            (#[trigger] pairs.drop_last()[i]).1,
        ) by {}
        lemma_put_all(entries, pairs.drop_last(), holds);
        let last = pairs.last();
        lemma_index_of(before, last.0, 0);
        let after = put(before, last.0, last.1);
        assert forall|i: int| 0 <= i < after.len() implies holds((#[trigger] after[i]).1) by {}
    }
}

/// A table from strings to values of `V`. No key occurs twice; the entries
/// stand in the order in which their keys were first stored.
#[derive(Debug, PartialEq, Eq)]
pub struct Table<V> {
    entries: Vec<(String, V)>,
}

/// The items of one section: values by key.
pub type Items = Table<String>;

/// A whole configuration as read: the items of each section by section name.
pub type RawConfig = Table<Items>;

impl<V: View> View for Table<V> {
    type V = Seq<(Seq<char>, V::V)>;

    /// The entries in order, each as the view of its key and the view of its value.
    closed spec fn view(&self) -> Seq<(Seq<char>, V::V)> {
        Seq::new(self.entries@.len(), |i: int| (self.entries@[i].0@, self.entries@[i].1@))
    }
}

impl<V> Table<V> {
    #[verifier::type_invariant]
    spec fn well_formed(self) -> bool {
        forall|i: int, j: int|
            0 <= i < j < self.entries@.len() ==> (#[trigger] self.entries@[i]).0@ != (
            #[trigger] self.entries@[j]).0@
    }
}

impl<V: View> Table<V> {
    /// The empty table.
    pub fn new() -> (table: Self)
        ensures
            table@ == Seq::<(Seq<char>, V::V)>::empty(),
    {
        let table = Table { entries: Vec::new() };
        table
    }

    /// The number of entries.
    pub fn len(&self) -> (n: usize)
        ensures
            n == self@.len(),
    {
        self.entries.len()
    }

    /// The key of entry `i`.
    pub fn key_at(&self, i: usize) -> (key: &String)
        requires
            i < self@.len(),
        ensures
            key@ == self@[i as int].0,
    {
        &self.entries[i].0
    }

    /// The value of entry `i`.
    pub fn value_at(&self, i: usize) -> (value: &V)
        requires
            i < self@.len(),
        ensures
            value@ == self@[i as int].1,
    {
        &self.entries[i].1
    }

    /// The position of the entry with `key`, or the number of entries if
    /// there is none.
    fn position(&self, key: &String) -> (i: usize)
        ensures
            i == index_of(self@, key@, 0),
            i <= self@.len(),
    {
        let mut i: usize = 0;
        while i < self.entries.len()
            invariant
                i <= self@.len(),
                self@.len() == self.entries@.len(),
                forall|k: int| 0 <= k < i ==> (#[trigger] self@[k]).0 != key@,
            decreases self@.len() - i,
        {
            if self.entries[i].0 == *key {
                proof {
                    lemma_index_of_is(self@, key@, 0, i as int);
                }
                return i;
            }
            i += 1;
        }
        proof {
            lemma_index_of_is(self@, key@, 0, i as int);
        }
        i
    }

    /// The value stored under `key`, if any.
    pub fn get(&self, key: &str) -> (value: Option<&V>)
        ensures
            match lookup(self@, key@) {
                Some(v) => value matches Some(found) && found@ == v,
                None => value is None,
            },
    {
        let owned = key.to_owned();
        let i = self.position(&owned);
        if i < self.entries.len() {
            Some(&self.entries[i].1)
        } else {
            None
        }
    }

    /// Whether some value is stored under `key`.
    pub fn contains_key(&self, key: &str) -> (found: bool)
        ensures
            found == lookup(self@, key@).is_some(),
    {
        self.get(key).is_some()
    }

    /// Stores `value` under `key`. A value that the key already had is
    /// replaced, and the key keeps its place.
    pub fn insert(&mut self, key: String, value: V)
        ensures
            final(self)@ == put(old(self)@, key@, value@),
    {
        proof {
            use_type_invariant(&*self);
        }
        let i = self.position(&key);
        let ghost before = self@;
        let ghost after = put(before, key@, value@);
        let mut entries: Vec<(String, V)> = Vec::new();
        std::mem::swap(&mut entries, &mut self.entries);
        if i < entries.len() {
            entries.set(i, (key, value));
        } else {
            entries.push((key, value));
        }
        proof {
            law_put(before, key@, value@, key@);
            assert forall|a: int, b: int| 0 <= a < b < entries@.len() implies (
            #[trigger] entries@[a]).0@ != (#[trigger] entries@[b]).0@ by {
                assert(after[a].0 == entries@[a].0@);
                assert(after[b].0 == entries@[b].0@);
            }
        }
        self.entries = entries;
    }
}

} // verus!
