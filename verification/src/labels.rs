//! String-to-string maps, as used for the labels of an object and for the
//! selector of a service.

use crate::text::str_eq;
use vstd::prelude::*;

verus! {

/// A map from label keys to label values, kept as a list of entries. Where a
/// key occurs more than once the earliest entry counts; `insert` never adds a
/// second entry for a key.
#[derive(Debug, Default, PartialEq, Eq)]
pub struct Labels {
    pub entries: Vec<(String, String)>,
}

/// Whether no key has two entries.
pub open spec fn no_key_twice(entries: Seq<(String, String)>) -> bool {
    forall|i: int, j: int|
        0 <= i < j < entries.len() ==> (#[trigger] entries[i]).0@ != (#[trigger] entries[j]).0@
}

/// The value of the earliest entry for `key` at or after position `start`.
pub open spec fn lookup_from(entries: Seq<(String, String)>, key: Seq<char>, start: int) -> Option<
    Seq<char>,
>
    decreases entries.len() - start,
{
    if start < 0 || start >= entries.len() {
        None
    } else if entries[start].0@ == key {
        Some(entries[start].1@)
    } else {
        lookup_from(entries, key, start + 1)
    }
}

/// The map that a list of entries stands for.
pub open spec fn entries_map(entries: Seq<(String, String)>) -> Map<Seq<char>, Seq<char>> {
    Map::new(
        |k: Seq<char>| lookup_from(entries, k, 0) is Some,
        |k: Seq<char>| lookup_from(entries, k, 0)->0,
    )
}

impl View for Labels {
    type V = Map<Seq<char>, Seq<char>>;

    open spec fn view(&self) -> Map<Seq<char>, Seq<char>> {
        entries_map(self.entries@)
    }
}

impl DeepView for Labels {
    type V = Map<Seq<char>, Seq<char>>;

    open spec fn deep_view(&self) -> Map<Seq<char>, Seq<char>> {
        entries_map(self.entries@)
    }
}

/// A lookup finds the first entry with the key, if there is one.
pub proof fn lemma_lookup_found(entries: Seq<(String, String)>, key: Seq<char>, start: int, i: int)
    requires
        0 <= start <= i < entries.len(),
        entries[i].0@ == key,
        forall|j: int| start <= j < i ==> entries[j].0@ != key,
    ensures
        lookup_from(entries, key, start) == Some(entries[i].1@),
    decreases i - start,
{
    if start < i {
        lemma_lookup_found(entries, key, start + 1, i);
    }
}

/// A lookup finds nothing where no entry has the key.
pub proof fn lemma_lookup_absent(entries: Seq<(String, String)>, key: Seq<char>, start: int)
    requires
        0 <= start,
        forall|j: int| start <= j < entries.len() ==> entries[j].0@ != key,
    ensures
        lookup_from(entries, key, start) is None,
    decreases entries.len() - start,
{
    if start < entries.len() {
        lemma_lookup_absent(entries, key, start + 1);
    }
}

/// What a lookup finds is the value of some entry with the key.
pub proof fn lemma_lookup_witness(entries: Seq<(String, String)>, key: Seq<char>, start: int) -> (i:
    int)
    requires
        0 <= start,
        lookup_from(entries, key, start) is Some,
    ensures
        start <= i < entries.len(),
        entries[i].0@ == key,
        forall|j: int| start <= j < i ==> entries[j].0@ != key,
        lookup_from(entries, key, start) == Some(entries[i].1@),
    decreases entries.len() - start,
{
    if entries[start].0@ == key {
        start
    } else {
        lemma_lookup_witness(entries, key, start + 1)
    }
}

impl Labels {
    /// Whether the list is as `new`, `insert` and `clone` keep it: no key has
    /// two entries.
    pub open spec fn well_formed(&self) -> bool {
        no_key_twice(self.entries@)
    }

    /// The empty map.
    pub fn new() -> (r: Self)
        ensures
            r@ == Map::<Seq<char>, Seq<char>>::empty(),
            r.well_formed(),
    {
        let r = Labels { entries: Vec::new() };
        r
    }

    /// The position of the earliest entry for `key`.
    fn position(&self, key: &str) -> (r: Option<usize>)
        ensures
            match r {
                Some(i) => i < self.entries@.len() && self.entries@[i as int].0@ == key@
                    && forall|j: int| 0 <= j < i ==> self.entries@[j].0@ != key@,
                None => forall|j: int| 0 <= j < self.entries@.len() ==> self.entries@[j].0@ != key@,
            },
    {
        let mut i: usize = 0;
        while i < self.entries.len()
            invariant
                i <= self.entries@.len(),
                forall|j: int| 0 <= j < i ==> self.entries@[j].0@ != key@,
            decreases self.entries.len() - i,
        {
            if str_eq(self.entries[i].0.as_str(), key) {
                return Some(i);
            }
            i += 1;
        }
        None
    }

    /// The value that the map holds for `key`.
    pub fn get(&self, key: &str) -> (r: Option<&String>)
        ensures
            r.deep_view() == (if self@.contains_key(key@) {
                Some(self@[key@])
            } else {
                None
            }),
    {
        match self.position(key) {
            Some(i) => {
                proof {
                    lemma_lookup_found(self.entries@, key@, 0, i as int);
                }
                Some(&self.entries[i].1)
            },
            None => {
                proof {
                    lemma_lookup_absent(self.entries@, key@, 0);
                }
                None
            },
        }
    }

    /// Whether the map holds no key.
    pub fn is_empty(&self) -> (r: bool)
        ensures
            r == (self@.dom() =~= Set::<Seq<char>>::empty()),
    {
        let r = self.entries.len() == 0;
        proof {
            if !r {
                lemma_lookup_found(self.entries@, self.entries@[0].0@, 0, 0);
                assert(self@.contains_key(self.entries@[0].0@));
            }
        }
        r
    }

    /// Sets the value for `key`, replacing the value it had.
    pub fn insert(&mut self, key: String, value: String)
        ensures
            final(self)@ == old(self)@.insert(key@, value@),
            old(self).well_formed() ==> final(self).well_formed(),
    {
        let ghost before = self.entries@;
        let ghost k = key@;
        let ghost v = value@;
        match self.position(key.as_str()) {
            Some(i) => {
                self.entries[i] = (key, value);
                proof {
                    lemma_entry_set(before, self.entries@, i as int, k, v);
                }
            },
            None => {
                self.entries.push((key, value));
                proof {
                    lemma_entry_set(before, self.entries@, before.len() as int, k, v);
                }
            },
        }
    }
}

/// A list in which the earliest entry for a key was given a new value, or
/// to which an entry was added for a key that had none, stands for the map
/// with the value set for the key; and it has no key twice if the list had
/// none.
pub proof fn lemma_entry_set(
    before: Seq<(String, String)>,
    after: Seq<(String, String)>,
    at: int,
    key: Seq<char>,
    value: Seq<char>,
)
    requires
        0 <= at <= before.len(),
        forall|j: int| 0 <= j < at ==> before[j].0@ != key,
        at < before.len() ==> before[at].0@ == key && after.len() == before.len(),
        at == before.len() ==> after.len() == before.len() + 1,
        after[at].0@ == key,
        after[at].1@ == value,
        forall|j: int| 0 <= j < before.len() && j != at ==> after[j] == before[j],
    ensures
        entries_map(after) == entries_map(before).insert(key, value),
        no_key_twice(before) ==> no_key_twice(after),
{
    assert forall|q: Seq<char>|
        lookup_from(after, q, 0) == (if q == key {
            Some(value)
        } else {
            lookup_from(before, q, 0)
        }) by {
        if q == key {
            lemma_lookup_found(after, q, 0, at);
        } else if lookup_from(before, q, 0) is Some {
            let w = lemma_lookup_witness(before, q, 0);
            lemma_lookup_found(after, q, 0, w);
        } else if lookup_from(after, q, 0) is Some {
            let w = lemma_lookup_witness(after, q, 0);
            lemma_present_lookup(before, q, 0, w);
        }
    }
    if no_key_twice(before) {
        assert forall|i: int, j: int| 0 <= i < j < after.len() implies (#[trigger] after[i]).0@ != (
        #[trigger] after[j]).0@ by {}
    }
}

impl Clone for Labels {
    fn clone(&self) -> (r: Self)
        ensures
            r.entries.deep_view() == self.entries.deep_view(),
            r@ == self@,
            self.well_formed() ==> r.well_formed(),
    {
        let mut entries: Vec<(String, String)> = Vec::new();
        let mut i: usize = 0;
        while i < self.entries.len()
            invariant
                i <= self.entries@.len(),
                entries@.len() == i,
                forall|j: int|
                    0 <= j < i ==> entries@[j].0@ == self.entries@[j].0@ && entries@[j].1@
                        == self.entries@[j].1@,
            decreases self.entries.len() - i,
        {
            entries.push((self.entries[i].0.clone(), self.entries[i].1.clone()));
            i += 1;
        }
        let r = Labels { entries };
        proof {
            lemma_same_entries_same_map(r.entries@, self.entries@);
            if self.well_formed() {
                assert forall|i: int, j: int| 0 <= i < j < r.entries@.len() implies (
                #[trigger] r.entries@[i]).0@ != (#[trigger] r.entries@[j]).0@ by {}
            }
        }
        r
    }
}

/// Lists whose entries hold the same text stand for the same map.
pub proof fn lemma_same_entries_same_map(a: Seq<(String, String)>, b: Seq<(String, String)>)
    requires
        a.len() == b.len(),
        forall|j: int| 0 <= j < a.len() ==> a[j].0@ == b[j].0@ && a[j].1@ == b[j].1@,
    ensures
        entries_map(a) == entries_map(b),
{
    assert forall|q: Seq<char>| lookup_from(a, q, 0) == lookup_from(b, q, 0) by {
        lemma_same_lookup(a, b, q, 0);
    }
}

proof fn lemma_same_lookup(
    a: Seq<(String, String)>,
    b: Seq<(String, String)>,
    key: Seq<char>,
    start: int,
)
    requires
        0 <= start,
        a.len() == b.len(),
        forall|j: int| 0 <= j < a.len() ==> a[j].0@ == b[j].0@ && a[j].1@ == b[j].1@,
    ensures
        lookup_from(a, key, start) == lookup_from(b, key, start),
    decreases a.len() - start,
{
    if start < a.len() {
        lemma_same_lookup(a, b, key, start + 1);
    }
}

/// Whether a selector picks out the labels: the selector has at least one
/// pair, and every pair of it is a pair of the labels. A selector without a
/// pair picks out nothing.
pub fn selectors_match(selectors: &Labels, labels: &Labels) -> (r: bool)
    ensures
        r == (!(selectors@.dom() =~= Set::<Seq<char>>::empty()) && selectors@.submap_of(labels@)),
{
    if selectors.is_empty() {
        return false;
    }
    let mut i: usize = 0;
    while i < selectors.entries.len()
        invariant
            i <= selectors.entries@.len(),
            forall|j: int|
                0 <= j < i ==> labels@.contains_key(#[trigger] selectors.entries@[j].0@)
                    && labels@[selectors.entries@[j].0@] == selectors@[selectors.entries@[j].0@],
        decreases selectors.entries.len() - i,
    {
        let key = selectors.entries[i].0.as_str();
        let wanted = selectors.get(key);
        let found = labels.get(key);
        proof {
            lemma_present_lookup(selectors.entries@, key@, 0, i as int);
        }
        match (wanted, found) {
            (Some(w), Some(f)) => {
                if !str_eq(w.as_str(), f.as_str()) {
                    return false;
                }
            },
            _ => {
                return false;
            },
        }
        i += 1;
    }
    proof {
        assert forall|k: Seq<char>| #[trigger]
            selectors@.dom().contains(k) implies labels@.dom().contains(k) && selectors@[k]
            == labels@[k] by {
            let w = lemma_lookup_witness(selectors.entries@, k, 0);
        }
    }
    true
}

proof fn lemma_present_lookup(entries: Seq<(String, String)>, key: Seq<char>, start: int, i: int)
    requires
        0 <= start <= i < entries.len(),
        entries[i].0@ == key,
    ensures
        lookup_from(entries, key, start) is Some,
    decreases i - start,
{
    if start < i && entries[start].0@ != key {
        lemma_present_lookup(entries, key, start + 1, i);
    }
}

} // verus!
