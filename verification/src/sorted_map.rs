//! A map kept as a vector in the order of its keys, for keys that a total order compares.

use crate::order::Ordered;
use crate::order::Precedence;
use vstd::prelude::*;

verus! {

/// The keys of `entries` ascend strictly.
pub open spec fn ascending<K: Ordered, V>(entries: Seq<(K, V)>) -> bool {
    forall|i: int, j: int|
        0 <= i < j < entries.len() ==> K::order(
            (#[trigger] entries[i]).0.value(),
            (#[trigger] entries[j]).0.value(),
        ) == Precedence::Before
}

/// The entry in position `i` has a key of the value `key`.
pub open spec fn holds_at<K: Ordered, V>(entries: Seq<(K, V)>, key: K::Value, i: int) -> bool {
    0 <= i < entries.len() && entries[i].0.value() == key
}

/// Some entry has a key of the value `key`.
pub open spec fn has_key<K: Ordered, V>(entries: Seq<(K, V)>, key: K::Value) -> bool {
    exists|i: int| holds_at(entries, key, i)
}

/// The map that holds the value of each entry of `entries` under the value of its key.
pub open spec fn map_of<K: Ordered, V>(entries: Seq<(K, V)>) -> Map<K::Value, V> {
    Map::new(
        |key: K::Value| has_key(entries, key),
        |key: K::Value| entries[choose|i: int| holds_at(entries, key, i)].1,
    )
}

/// In an ascending sequence no two entries have keys of the same value.
pub proof fn lemma_keys_differ<K: Ordered, V>(entries: Seq<(K, V)>, i: int, j: int)
    requires
        ascending(entries),
        0 <= i < entries.len(),
        0 <= j < entries.len(),
        entries[i].0.value() == entries[j].0.value(),
    ensures
        i == j,
{
    K::lemma_order_flip(entries[i].0.value(), entries[j].0.value());
    if i < j {
        assert(K::order(entries[i].0.value(), entries[j].0.value()) == Precedence::Before);
    } else if j < i {
        assert(K::order(entries[j].0.value(), entries[i].0.value()) == Precedence::Before);
    }
}

/// Each entry of an ascending sequence is what the sequence's map holds under its key.
pub proof fn lemma_map_of_entry<K: Ordered, V>(entries: Seq<(K, V)>, i: int)
    requires
        ascending(entries),
        0 <= i < entries.len(),
    ensures
        map_of(entries).contains_key(entries[i].0.value()),
        map_of(entries)[entries[i].0.value()] == entries[i].1,
{
    let key = entries[i].0.value();
    assert(holds_at(entries, key, i));
    let j = choose|j: int| holds_at(entries, key, j);
    lemma_keys_differ(entries, i, j);
}

/// Replacing the value of an entry keeps the keys in order and puts the value under the
/// entry's key.
pub proof fn lemma_replace_entry<K: Ordered, V>(before: Seq<(K, V)>, at: int, key: K, value: V)
    requires
        ascending(before),
        0 <= at < before.len(),
        key.value() == before[at].0.value(),
    ensures
        ascending(before.update(at, (key, value))),
        map_of(before.update(at, (key, value))) == map_of(before).insert(key.value(), value),
{
    let after = before.update(at, (key, value));
    assert forall|i: int, j: int| 0 <= i < j < after.len() implies K::order(
        (#[trigger] after[i]).0.value(),
        (#[trigger] after[j]).0.value(),
    ) == Precedence::Before by {
        assert(after[i].0.value() == before[i].0.value());
        assert(after[j].0.value() == before[j].0.value());
    }
    assert forall|k: K::Value| has_key(after, k) <==> (k == key.value() || has_key(before, k)) by {
        if k == key.value() {
            assert(holds_at(after, k, at));
        }
        if has_key(after, k) {
            let i = choose|i: int| holds_at(after, k, i);
            assert(holds_at(before, k, i));
        }
        if has_key(before, k) {
            let i = choose|i: int| holds_at(before, k, i);
            assert(holds_at(after, k, i));
        }
    }
    assert forall|k: K::Value| has_key(after, k) implies #[trigger] map_of(after)[k] == map_of(
        before,
    ).insert(key.value(), value)[k] by {
        let i = choose|i: int| holds_at(after, k, i);
        lemma_map_of_entry(after, i);
        if k != key.value() {
            assert(holds_at(before, k, i));
            lemma_map_of_entry(before, i);
        } else {
            lemma_keys_differ(after, i, at);
        }
    }
    assert(map_of(after) =~= map_of(before).insert(key.value(), value));
}

/// Putting a new entry where its key belongs keeps the keys in order and adds the entry
/// to the map.
pub proof fn lemma_add_entry<K: Ordered, V>(before: Seq<(K, V)>, at: int, key: K, value: V)
    requires
        ascending(before),
        0 <= at <= before.len(),
        forall|i: int|
            0 <= i < at ==> K::order((#[trigger] before[i]).0.value(), key.value())
                == Precedence::Before,
        forall|i: int|
            at <= i < before.len() ==> K::order(key.value(), (#[trigger] before[i]).0.value())
                == Precedence::Before,
    ensures
        ascending(before.insert(at, (key, value))),
        map_of(before.insert(at, (key, value))) == map_of(before).insert(key.value(), value),
{
    let after = before.insert(at, (key, value));
    assert forall|i: int, j: int| 0 <= i < j < after.len() implies K::order(
        (#[trigger] after[i]).0.value(),
        (#[trigger] after[j]).0.value(),
    ) == Precedence::Before by {
        if j < at {
            assert(after[i] == before[i] && after[j] == before[j]);
        } else if j == at {
            assert(after[i] == before[i]);
        } else if i < at {
            assert(after[i] == before[i] && after[j] == before[j - 1]);
        } else if i == at {
            assert(after[j] == before[j - 1]);
        } else {
            assert(after[i] == before[i - 1] && after[j] == before[j - 1]);
        }
    }
    assert forall|k: K::Value| has_key(after, k) <==> (k == key.value() || has_key(before, k)) by {
        if k == key.value() {
            assert(holds_at(after, k, at));
        }
        if has_key(after, k) && k != key.value() {
            let i = choose|i: int| holds_at(after, k, i);
            if i < at {
                assert(holds_at(before, k, i));
            } else {
                assert(holds_at(before, k, i - 1));
            }
        }
        if has_key(before, k) {
            let i = choose|i: int| holds_at(before, k, i);
            if i < at {
                assert(holds_at(after, k, i));
            } else {
                assert(holds_at(after, k, i + 1));
            }
        }
    }
    assert forall|k: K::Value| has_key(after, k) implies #[trigger] map_of(after)[k] == map_of(
        before,
    ).insert(key.value(), value)[k] by {
        let i = choose|i: int| holds_at(after, k, i);
        lemma_map_of_entry(after, i);
        if k == key.value() {
            lemma_keys_differ(after, i, at);
        } else if i < at {
            assert(holds_at(before, k, i));
            lemma_map_of_entry(before, i);
        } else {
            assert(holds_at(before, k, i - 1));
            lemma_map_of_entry(before, i - 1);
        }
    }
    assert(map_of(after) =~= map_of(before).insert(key.value(), value));
}

/// An ascending sequence has as many entries as its map has keys.
pub proof fn lemma_domain_size<K: Ordered, V>(entries: Seq<(K, V)>)
    requires
        ascending(entries),
    ensures
        map_of(entries).dom().finite(),
        map_of(entries).dom().len() == entries.len(),
    decreases entries.len(),
{
    if entries.len() == 0 {
        assert forall|k: K::Value| !has_key(entries, k) by {
            if has_key(entries, k) {
                let i = choose|i: int| holds_at(entries, k, i);
            }
        }
        assert(map_of(entries).dom() =~= Set::<K::Value>::empty());
    } else {
        let rest = entries.drop_last();
        let last = entries.last().0.value();
        let end = entries.len() - 1;
        assert forall|i: int, j: int| 0 <= i < j < rest.len() implies K::order(
            (#[trigger] rest[i]).0.value(),
            (#[trigger] rest[j]).0.value(),
        ) == Precedence::Before by {
            assert(rest[i] == entries[i]);
            assert(rest[j] == entries[j]);
        }
        lemma_domain_size(rest);
        assert forall|k: K::Value| has_key(entries, k) <==> (k == last || has_key(rest, k)) by {
            if has_key(entries, k) && k != last {
                let i = choose|i: int| holds_at(entries, k, i);
                assert(holds_at(rest, k, i));
            }
            if has_key(rest, k) {
                let i = choose|i: int| holds_at(rest, k, i);
                assert(holds_at(entries, k, i));
            }
            if k == last {
                assert(holds_at(entries, k, end));
            }
        }
        if has_key(rest, last) {
            let i = choose|i: int| holds_at(rest, last, i);
            assert(rest[i] == entries[i]);
            lemma_keys_differ(entries, i, end);
        }
        assert(map_of(entries).dom() =~= map_of(rest).dom().insert(last));
    }
}

/// A map from keys to values.
pub struct SortedMap<K: Ordered, V> {
    entries: Vec<(K, V)>,
}

impl<K: Ordered, V> View for SortedMap<K, V> {
    type V = Map<K::Value, V>;

    closed spec fn view(&self) -> Map<K::Value, V> {
        map_of(self.entries@)
    }
}

impl<K: Ordered, V> SortedMap<K, V> {
    /// The invariant of the map: `new` gives a map that meets it, and `insert` keeps it.
    pub closed spec fn wf(&self) -> bool {
        ascending(self.entries@)
    }

    /// The entries in the order of their keys.
    pub closed spec fn slots(&self) -> Seq<(K, V)> {
        self.entries@
    }

    /// The slots hold the map's entries, each once and in the order of the keys.
    pub open spec fn slots_hold_the_map(&self) -> bool {
        &&& ascending(self.slots())
        &&& self@ == map_of(self.slots())
        &&& self@.dom().finite()
        &&& self@.dom().len() == self.slots().len()
    }

    /// A map without entries.
    pub fn new() -> (map: SortedMap<K, V>)
        ensures
            map.wf(),
            map@ == Map::<K::Value, V>::empty(),
            map.slots().len() == 0,
    {
        let map = SortedMap { entries: Vec::new() };
        proof {
            lemma_domain_size(map.entries@);
            assert(map@.dom().len() == 0);
            assert(map@ =~= Map::<K::Value, V>::empty());
        }
        map
    }

    /// The number of entries.
    pub fn len(&self) -> (n: usize)
        requires
            self.wf(),
        ensures
            n == self.slots().len(),
            self.slots_hold_the_map(),
    {
        proof {
            lemma_domain_size(self.entries@);
        }
        self.entries.len()
    }

    /// The entry in slot `i`.
    pub fn slot(&self, i: usize) -> (entry: &(K, V))
        requires
            self.wf(),
            i < self.slots().len(),
        ensures
            *entry == self.slots()[i as int],
            self@.contains_key(entry.0.value()),
            self@[entry.0.value()] == entry.1,
    {
        proof {
            lemma_map_of_entry(self.entries@, i as int);
        }
        &self.entries[i]
    }

    /// Where `key` is, or where it would have to be put.
    fn search(&self, key: &K) -> (hit: (bool, usize))
        requires
            self.wf(),
        ensures
            hit.1 <= self.entries@.len(),
            hit.0 ==> holds_at(self.entries@, key.value(), hit.1 as int),
            !hit.0 ==> !has_key(self.entries@, key.value()),
            !hit.0 ==> forall|i: int|
                0 <= i < hit.1 ==> K::order((#[trigger] self.entries@[i]).0.value(), key.value())
                    == Precedence::Before,
            !hit.0 ==> forall|i: int|
                hit.1 <= i < self.entries@.len() ==> K::order(
                    key.value(),
                    (#[trigger] self.entries@[i]).0.value(),
                ) == Precedence::Before,
    {
        let mut low: usize = 0;
        let mut high: usize = self.entries.len();
        while low < high
            invariant
                low <= high <= self.entries@.len(),
                ascending(self.entries@),
                forall|i: int|
                    0 <= i < low ==> K::order(
                        (#[trigger] self.entries@[i]).0.value(),
                        key.value(),
                    ) == Precedence::Before,
                forall|i: int|
                    high <= i < self.entries@.len() ==> K::order(
                        key.value(),
                        (#[trigger] self.entries@[i]).0.value(),
                    ) == Precedence::Before,
            decreases high - low,
        {
            let middle: usize = low + (high - low) / 2;
            let ghost pivot = self.entries@[middle as int].0.value();
            match self.entries[middle].0.compare(key) {
                Precedence::Before => {
                    assert forall|i: int| 0 <= i < middle + 1 implies K::order(
                        (#[trigger] self.entries@[i]).0.value(),
                        key.value(),
                    ) == Precedence::Before by {
                        if i < middle {
                            let other = self.entries@[i].0.value();
                            assert(K::order(other, pivot) == Precedence::Before);
                            K::lemma_order_transitive(other, pivot, key.value());
                        }
                    }
                    low = middle + 1;
                },
                Precedence::Same => {
                    proof {
                        K::lemma_order_flip(pivot, key.value());
                    }
                    return (true, middle);
                },
                Precedence::After => {
                    assert forall|i: int| middle <= i < self.entries@.len() implies K::order(
                        key.value(),
                        (#[trigger] self.entries@[i]).0.value(),
                    ) == Precedence::Before by {
                        let other = self.entries@[i].0.value();
                        K::lemma_order_flip(pivot, key.value());
                        if middle < i {
                            assert(K::order(pivot, other) == Precedence::Before);
                            K::lemma_order_transitive(key.value(), pivot, other);
                        }
                    }
                    high = middle;
                },
            }
        }
        proof {
            if has_key(self.entries@, key.value()) {
                let i = choose|i: int| holds_at(self.entries@, key.value(), i);
                K::lemma_order_flip(key.value(), key.value());
                assert(K::order(self.entries@[i].0.value(), key.value()) == Precedence::Same);
            }
        }
        (false, low)
    }

    /// Tells whether the map has an entry for `key`.
    pub fn contains_key(&self, key: &K) -> (found: bool)
        requires
            self.wf(),
        ensures
            found == self@.contains_key(key.value()),
    {
        let hit = self.search(key);
        hit.0
    }

    /// The value that the map holds for `key`.
    pub fn get(&self, key: &K) -> (value: Option<&V>)
        requires
            self.wf(),
        ensures
            match value {
                Some(v) => self@.contains_key(key.value()) && *v == self@[key.value()],
                None => !self@.contains_key(key.value()),
            },
    {
        let hit = self.search(key);
        if hit.0 {
            proof {
                lemma_map_of_entry(self.entries@, hit.1 as int);
            }
            Some(&self.entries[hit.1].1)
        } else {
            None
        }
    }

    /// Puts `value` under `key`, in place of what the map held there.
    pub fn insert(&mut self, key: K, value: V)
        requires
            old(self).wf(),
        ensures
            final(self).wf(),
            final(self)@ == old(self)@.insert(key.value(), value),
    {
        let hit = self.search(&key);
        let ghost before = self.entries@;
        if hit.0 {
            proof {
                lemma_replace_entry(before, hit.1 as int, key, value);
            }
            self.entries[hit.1] = (key, value);
        } else {
            proof {
                lemma_add_entry(before, hit.1 as int, key, value);
            }
            self.entries.insert(hit.1, (key, value));
        }
    }
}

} // verus!
