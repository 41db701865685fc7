//! An insertion-ordered mapping from text keys to text values.

use vstd::prelude::*;
use crate::text::same_text;

verus! {

/// The mathematical model of an ordered mapping: its entries, oldest first.
pub type Entries = Seq<(Seq<char>, Seq<char>)>;

/// The position of the first entry with the given key, or the length of
/// the sequence where no entry has it.
pub open spec fn first_index(entries: Entries, key: Seq<char>) -> int
    decreases entries.len(),
{
    if entries.len() == 0 {
        0
    } else if entries[0].0 == key {
        0
    } else {
        1 + first_index(entries.drop_first(), key)
    }
}

/// Whether some entry has the given key.
pub open spec fn has_key(entries: Entries, key: Seq<char>) -> bool {
    first_index(entries, key) < entries.len()
}

/// The value stored under a key, if any.
pub open spec fn lookup(entries: Entries, key: Seq<char>) -> Option<Seq<char>> {
    if has_key(entries, key) {
        Some(entries[first_index(entries, key)].1)
    } else {
        None
    }
}

/// The entries after storing `value` under `key`: an existing key keeps its
/// place and takes the new value, a new key goes to the end.
pub open spec fn upsert(entries: Entries, key: Seq<char>, value: Seq<char>) -> Entries {
    if has_key(entries, key) {
        entries.update(first_index(entries, key), (key, value))
    } else {
        entries.push((key, value))
    }
}

/// The entries obtained by storing the first `n` pairs one after another,
/// starting from nothing.
pub open spec fn collect_prefix(pairs: Entries, n: nat) -> Entries
    decreases n,
{
    if n == 0 || n > pairs.len() {
        Seq::empty()
    } else {
        upsert(collect_prefix(pairs, (n - 1) as nat), pairs[n - 1].0, pairs[n - 1].1)
    }
}

/// The entries obtained by storing all pairs one after another.
pub open spec fn collect(pairs: Entries) -> Entries {
    collect_prefix(pairs, pairs.len())
}

/// No two entries share a key.
pub open spec fn distinct_keys(entries: Entries) -> bool {
    forall|i: int, j: int|
        0 <= i < j < entries.len() ==> (#[trigger] entries[i]).0 != (#[trigger] entries[j]).0
}

/// The model of a vector of owned pairs.
pub open spec fn pairs_view(pairs: Seq<(String, String)>) -> Entries {
    Seq::new(pairs.len(), |i: int| (pairs[i].0@, pairs[i].1@))
}

/// `first_index` stays within the sequence, points at the key where it is
/// below the length, and no earlier entry has the key.
pub proof fn lemma_first_index(entries: Entries, key: Seq<char>)
    ensures
        0 <= first_index(entries, key) <= entries.len(),
        first_index(entries, key) < entries.len() ==> entries[first_index(entries, key)].0 == key,
        forall|j: int| 0 <= j < first_index(entries, key) ==> (#[trigger] entries[j]).0 != key,
    decreases entries.len(),
{
    if entries.len() != 0 && entries[0].0 != key {
        let rest = entries.drop_first();
        lemma_first_index(rest, key);
        assert forall|j: int| 0 <= j < first_index(entries, key) implies (#[trigger] entries[j]).0
            != key by {
            if j > 0 {
                assert(entries[j] == rest[j - 1]);
            }
        }
    }
}

/// A position whose entry has the key, with no earlier such entry, is the
/// first index.
pub proof fn lemma_first_index_is(entries: Entries, key: Seq<char>, at: int)
    requires
        0 <= at <= entries.len(),
        at < entries.len() ==> entries[at].0 == key,
        forall|j: int| 0 <= j < at ==> (#[trigger] entries[j]).0 != key,
    ensures
        first_index(entries, key) == at,
{
    lemma_first_index(entries, key);
    let found = first_index(entries, key);
    if found < at {
        assert(entries[found].0 != key);
    } else if found > at {
        assert(entries[at].0 != key);
    }
}

/// After a key was stored, looking it up gives the value stored.
pub proof fn lemma_upsert_lookup(entries: Entries, key: Seq<char>, value: Seq<char>)
    ensures
        lookup(upsert(entries, key, value), key) == Some(value),
{
    lemma_first_index(entries, key);
    let after = upsert(entries, key, value);
    let at = first_index(entries, key);
    assert forall|j: int| 0 <= j < at implies (#[trigger] after[j]).0 != key by {
        assert(after[j] == entries[j]);
    }
    lemma_first_index_is(after, key, at);
}

/// Storing a key keeps the keys distinct.
pub proof fn lemma_upsert_distinct(entries: Entries, key: Seq<char>, value: Seq<char>)
    requires
        distinct_keys(entries),
    ensures
        distinct_keys(upsert(entries, key, value)),
{
    lemma_first_index(entries, key);
    let after = upsert(entries, key, value);
    assert forall|i: int, j: int| 0 <= i < j < after.len() implies (#[trigger] after[i]).0 != (
    #[trigger] after[j]).0 by {
        if has_key(entries, key) {
            assert(after[i].0 == entries[i].0);
            assert(after[j].0 == entries[j].0);
        } else if j == entries.len() {
            assert(entries[i].0 != key);
        } else {
            assert(after[i] == entries[i]);
            assert(after[j] == entries[j]);
        }
    }
}

/// Collecting pairs one after another never leaves two entries with one key.
pub proof fn lemma_collect_distinct(pairs: Entries, n: nat)
    ensures
        distinct_keys(collect_prefix(pairs, n)),
    decreases n,
{
    if n != 0 && n <= pairs.len() {
        lemma_collect_distinct(pairs, (n - 1) as nat);
        lemma_upsert_distinct(
            collect_prefix(pairs, (n - 1) as nat),
            pairs[n - 1].0,
            pairs[n - 1].1,
        );
    }
}

/// Collecting entries that already have distinct keys changes nothing.
pub proof fn lemma_collect_unchanged(entries: Entries, n: nat)
    requires
        distinct_keys(entries),
        n <= entries.len(),
    ensures
        collect_prefix(entries, n) == entries.subrange(0, n as int),
    decreases n,
{
    if n == 0 {
        assert(collect_prefix(entries, n) =~= entries.subrange(0, 0));
    } else {
        lemma_collect_unchanged(entries, (n - 1) as nat);
        let earlier = entries.subrange(0, n - 1);
        assert forall|j: int| 0 <= j < earlier.len() implies (#[trigger] earlier[j]).0
            != entries[n - 1].0 by {
            assert(earlier[j] == entries[j]);
        }
        lemma_first_index_is(earlier, entries[n - 1].0, earlier.len() as int);
        assert(earlier.push(entries[n - 1]) =~= entries.subrange(0, n as int));
    }
}

/// An insertion-ordered mapping from text keys to text values.
#[derive(Debug, PartialEq, Eq, Hash)]
pub struct StringMap {
    pub entries: Vec<(String, String)>,
}

impl View for StringMap {
    type V = Entries;

    open spec fn view(&self) -> Entries {
        pairs_view(self.entries@)
    }
}

impl Clone for StringMap {
    fn clone(&self) -> (copy: StringMap)
        ensures
            copy@ == self@,
    {
        let mut entries: Vec<(String, String)> = Vec::new();
        let mut i: usize = 0;
        while i < self.entries.len()
            invariant
                i <= self.entries.len(),
                entries@.len() == i,
                forall|j: int|
                    0 <= j < i ==> entries@[j].0@ == self.entries@[j].0@ && entries@[j].1@
                        == self.entries@[j].1@,
            decreases self.entries.len() - i,
        {
            entries.push((self.entries[i].0.clone(), self.entries[i].1.clone()));
            i += 1;
        }
        let copy = StringMap { entries };
        assert(copy@ =~= self@);
        copy
    }
}

impl Default for StringMap {
    fn default() -> (out: StringMap)
        ensures
            out@ == Seq::<(Seq<char>, Seq<char>)>::empty(),
    {
        StringMap::new()
    }
}

impl StringMap {
    /// Whether the mapping is well formed: no two entries share a key.
    pub open spec fn wf(&self) -> bool {
        distinct_keys(self@)
    }

    /// An empty mapping.
    pub fn new() -> (out: StringMap)
        ensures
            out@ == Seq::<(Seq<char>, Seq<char>)>::empty(),
            out.wf(),
    {
        let out = StringMap { entries: Vec::new() };
        assert(out@ =~= Seq::<(Seq<char>, Seq<char>)>::empty());
        out
    }

    /// The number of entries.
    pub fn len(&self) -> (n: usize)
        ensures
            n == self@.len(),
    {
        self.entries.len()
    }

    /// Stores `value` under `key`, replacing the value of an entry that
    /// already has this key and appending a new entry otherwise.
    pub fn insert(&mut self, key: String, value: String)
        ensures
            final(self)@ == upsert(old(self)@, key@, value@),
            lookup(final(self)@, key@) == Some(value@),
            old(self).wf() ==> final(self).wf(),
    {
        let ghost before = self@;
        let mut i: usize = 0;
        while i < self.entries.len()
            invariant
                i <= self.entries.len(),
                self@ == before,
                before == old(self)@,
                forall|j: int| 0 <= j < i ==> (#[trigger] before[j]).0 != key@,
            decreases self.entries.len() - i,
        {
            if same_text(self.entries[i].0.as_str(), key.as_str()) {
                proof {
                    lemma_first_index_is(before, key@, i as int);
                    lemma_upsert_lookup(before, key@, value@);
                    if distinct_keys(before) {
                        lemma_upsert_distinct(before, key@, value@);
                    }
                }
                self.entries.set(i, (key, value));
                assert(self@ =~= upsert(before, key@, value@));
                return ;
            }
            i += 1;
        }
        proof {
            lemma_first_index_is(before, key@, i as int);
            lemma_upsert_lookup(before, key@, value@);
            if distinct_keys(before) {
                lemma_upsert_distinct(before, key@, value@);
            }
        }
        self.entries.push((key, value));
        assert(self@ =~= upsert(before, key@, value@));
    }

    /// The value stored under `key`, if any.
    pub fn get(&self, key: &str) -> (found: Option<&String>)
        ensures
            match found {
                Some(value) => lookup(self@, key@) == Some(value@),
                None => lookup(self@, key@).is_none(),
            },
    {
        let mut i: usize = 0;
        while i < self.entries.len()
            invariant
                i <= self.entries.len(),
                forall|j: int| 0 <= j < i ==> (#[trigger] self@[j]).0 != key@,
            decreases self.entries.len() - i,
        {
            if same_text(self.entries[i].0.as_str(), key) {
                proof {
                    lemma_first_index_is(self@, key@, i as int);
                }
                return Some(&self.entries[i].1);
            }
            i += 1;
        }
        proof {
            lemma_first_index_is(self@, key@, i as int);
        }
        None
    }

    /// Whether some entry has the given key.
    pub fn contains_key(&self, key: &str) -> (found: bool)
        ensures
            found == has_key(self@, key@),
    {
        self.get(key).is_some()
    }

    /// The mapping that results from storing the pairs one after another.
    pub fn from_pairs(pairs: Vec<(String, String)>) -> (out: StringMap)
        ensures
            out@ == collect(pairs_view(pairs@)),
            out.wf(),
    {
        let mut out = StringMap::new();
        let mut i: usize = 0;
        while i < pairs.len()
            invariant
                i <= pairs.len(),
                out@ == collect_prefix(pairs_view(pairs@), i as nat),
            decreases pairs.len() - i,
        {
            let key: String = pairs[i].0.clone();
            let value: String = pairs[i].1.clone();
            out.insert(key, value);
            i += 1;
        }
        proof {
            lemma_collect_distinct(pairs_view(pairs@), pairs.len() as nat);
        }
        out
    }
}

} // verus!
