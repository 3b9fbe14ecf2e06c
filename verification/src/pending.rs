//! A map from (channel, commitment number) to what is held for that commitment.

use vstd::prelude::*;

verus! {

/// A pending commitment is known by its channel id and its commitment number.
pub type CommitmentKey = (Seq<char>, u64);

/// A map keyed by channel id and commitment number: each key is held at most once, and
/// inserting under a held key replaces what was there.
pub struct PendingMap<V> {
    entries: Vec<((String, u64), V)>,
}

/// The keys of `entries`, position by position.
spec fn entry_keys<V>(entries: Seq<((String, u64), V)>) -> Seq<CommitmentKey> {
    entries.map_values(|e: ((String, u64), V)| (e.0.0@, e.0.1))
}

/// What `entries` hold, as a map.
spec fn entry_map<V>(entries: Seq<((String, u64), V)>) -> Map<CommitmentKey, V> {
    let keys = entry_keys(entries);
    Map::new(|k: CommitmentKey| keys.contains(k), |k: CommitmentKey| entries[keys.index_of(k)].1)
}

impl<V> View for PendingMap<V> {
    type V = Map<CommitmentKey, V>;

    closed spec fn view(&self) -> Map<CommitmentKey, V> {
        entry_map(self.entries@)
    }
}

/// Where a key stands, the map has the value that stands beside it.
proof fn lemma_entry_at<V>(entries: Seq<((String, u64), V)>, i: int)
    requires
        entry_keys(entries).no_duplicates(),
        0 <= i < entries.len(),
    ensures
        entry_map(entries).contains_key((entries[i].0.0@, entries[i].0.1)),
        entry_map(entries)[(entries[i].0.0@, entries[i].0.1)] == entries[i].1,
{
    let keys = entry_keys(entries);
    let k = (entries[i].0.0@, entries[i].0.1);
    assert(keys[i] == k);
    assert(keys[keys.index_of(k)] == k);
}

/// The map has one entry for each position.
proof fn lemma_entry_count<V>(entries: Seq<((String, u64), V)>)
    requires
        entry_keys(entries).no_duplicates(),
    ensures
        entry_map(entries).dom().finite(),
        entry_map(entries).dom().len() == entries.len(),
{
    let keys = entry_keys(entries);
    keys.unique_seq_to_set();
    assert(entry_map(entries).dom() =~= keys.to_set());
}

impl<V> PendingMap<V> {
    #[verifier::type_invariant]
    spec fn keys_are_unique(self) -> bool {
        entry_keys(self.entries@).no_duplicates()
    }

    /// The empty map.
    pub fn new() -> (map: Self)
        ensures
            map@ == Map::<CommitmentKey, V>::empty(),
    {
        let map = PendingMap { entries: Vec::new() };
        assert(map@ =~= Map::<CommitmentKey, V>::empty());
        map
    }

    /// How many keys are held.
    pub fn len(&self) -> (n: usize)
        ensures
            self@.dom().finite(),
            n == self@.len(),
    {
        proof {
            use_type_invariant(&*self);
            lemma_entry_count(self.entries@);
        }
        self.entries.len()
    }

    /// Where `key` stands, or the number of entries where it is not held.
    fn position(&self, key: &(String, u64)) -> (i: usize)
        ensures
            i <= self.entries@.len(),
            i < self.entries@.len() ==> entry_keys(self.entries@)[i as int] == (key.0@, key.1),
            i == self.entries@.len() ==> !entry_keys(self.entries@).contains((key.0@, key.1)),
    {
        let mut i: usize = 0;
        while i < self.entries.len()
            invariant
                i <= self.entries@.len(),
                forall|j: int|
                    0 <= j < i ==> #[trigger] entry_keys(self.entries@)[j] != (key.0@, key.1),
            decreases self.entries@.len() - i,
        {
            let held: &(String, u64) = &self.entries[i].0;
            if held.1 == key.1 && held.0 == key.0 {
                return i;
            }
            i += 1;
        }
        i
    }

    /// What is held under `key`.
    pub fn get(&self, key: &(String, u64)) -> (value: Option<&V>)
        ensures
            match value {
                Some(v) => self@.contains_key((key.0@, key.1)) && *v == self@[(key.0@, key.1)],
                None => !self@.contains_key((key.0@, key.1)),
            },
    {
        proof {
            use_type_invariant(&*self);
        }
        let i: usize = self.position(key);
        if i < self.entries.len() {
            proof {
                lemma_entry_at(self.entries@, i as int);
            }
            Some(&self.entries[i].1)
        } else {
            None
        }
    }

    /// Holds `value` under `key`, in place of what was held there before.
    pub fn insert(&mut self, key: (String, u64), value: V)
        ensures
            final(self)@ == old(self)@.insert((key.0@, key.1), value),
    {
        proof {
            use_type_invariant(&*self);
        }
        let i: usize = self.position(&key);
        let ghost before = self.entries@;
        let ghost k = (key.0@, key.1);
        let mut entries: Vec<((String, u64), V)> = Vec::new();
        std::mem::swap(&mut entries, &mut self.entries);
        if i < entries.len() {
            entries.set(i, (key, value));
            proof {
                assert(entry_keys(entries@) =~= entry_keys(before));
            }
        } else {
            entries.push((key, value));
            proof {
                assert(entry_keys(entries@) =~= entry_keys(before).push(k));
            }
        }
        proof {
            let after = entries@;
            assert forall|q: CommitmentKey| true implies (#[trigger] entry_map(
                after,
            ).contains_key(q) <==> (q == k || entry_map(before).contains_key(q))) by {
                if entry_keys(before).contains(q) {
                    let j = entry_keys(before).index_of(q);
                    assert(entry_keys(after)[j] == q);
                }
                assert(entry_keys(after)[i as int] == k);
            }
            assert forall|q: CommitmentKey| #[trigger] entry_map(after).contains_key(q) implies entry_map(
                after,
            )[q] == entry_map(before).insert(k, value)[q] by {
                let j = entry_keys(after).index_of(q);
                lemma_entry_at(after, j);
                if q != k {
                    lemma_entry_at(before, j);
                }
            }
            assert(entry_map(after) =~= entry_map(before).insert(k, value));
        }
        self.entries = entries;
    }

    /// Drops what is held under `key`.
    pub fn remove(&mut self, key: &(String, u64))
        ensures
            final(self)@ == old(self)@.remove((key.0@, key.1)),
    {
        proof {
            use_type_invariant(&*self);
        }
        let i: usize = self.position(key);
        let ghost before = self.entries@;
        let ghost k = (key.0@, key.1);
        if i < self.entries.len() {
            let mut entries: Vec<((String, u64), V)> = Vec::new();
            std::mem::swap(&mut entries, &mut self.entries);
            let _ = entries.remove(i);
            proof {
                let after = entries@;
                assert(entry_keys(after) =~= entry_keys(before).remove(i as int));
                assert forall|q: CommitmentKey| true implies (#[trigger] entry_map(
                    after,
                ).contains_key(q) <==> (q != k && entry_map(before).contains_key(q))) by {
                    if entry_keys(before).contains(q) && q != k {
                        let j = entry_keys(before).index_of(q);
                        if j < i {
                            assert(entry_keys(after)[j] == q);
                        } else {
                            assert(entry_keys(after)[j - 1] == q);
                        }
                    }
                    if entry_keys(after).contains(q) {
                        let j = entry_keys(after).index_of(q);
                        if j < i {
                            assert(entry_keys(before)[j] == q);
                        } else {
                            assert(entry_keys(before)[j + 1] == q);
                        }
                    }
                }
                assert forall|q: CommitmentKey| #[trigger] entry_map(after).contains_key(
                    q,
                ) implies entry_map(after)[q] == entry_map(before)[q] by {
                    let j = entry_keys(after).index_of(q);
                    lemma_entry_at(after, j);
                    if j < i {
                        lemma_entry_at(before, j);
                    } else {
                        lemma_entry_at(before, j + 1);
                    }
                }
                assert(entry_map(after) =~= entry_map(before).remove(k));
            }
            self.entries = entries;
        } else {
            proof {
                assert(entry_map(before) =~= entry_map(before).remove(k));
            }
        }
    }

    /// The keys that are held for one channel, each once.
    pub fn keys_of_channel(&self, channel_id: &String) -> (keys: Vec<(String, u64)>)
        ensures
            key_views(keys@).no_duplicates(),
            forall|k: CommitmentKey| #[trigger]
                key_views(keys@).contains(k) <==> (self@.contains_key(k) && k.0 == channel_id@),
    {
        proof {
            use_type_invariant(&*self);
        }
        let mut keys: Vec<(String, u64)> = Vec::new();
        let mut i: usize = 0;
        while i < self.entries.len()
            invariant
                i <= self.entries@.len(),
                entry_keys(self.entries@).no_duplicates(),
                key_views(keys@).no_duplicates(),
                forall|k: CommitmentKey| #[trigger]
                    key_views(keys@).contains(k) <==> (k.0 == channel_id@ && exists|j: int|
                        0 <= j < i && #[trigger] entry_keys(self.entries@)[j] == k),
            decreases self.entries@.len() - i,
        {
            let held: &(String, u64) = &self.entries[i].0;
            let ghost before = keys@;
            assert(entry_keys(self.entries@)[i as int] == (held.0@, held.1));
            if held.0 == *channel_id {
                keys.push((held.0.clone(), held.1));
                proof {
                    let k = (held.0@, held.1);
                    assert(key_views(keys@) =~= key_views(before).push(k));
                    assert(!key_views(before).contains(k));
                    assert forall|q: CommitmentKey| true implies (#[trigger] key_views(
                        keys@,
                    ).contains(q) <==> (q == k || key_views(before).contains(q))) by {
                        if key_views(before).contains(q) {
                            let j = key_views(before).index_of(q);
                            assert(key_views(keys@)[j] == q);
                        }
                        assert(key_views(keys@)[before.len() as int] == k);
                    }
                }
            }
            i += 1;
        }
        keys
    }
}

/// The keys that a list of exec keys stands for.
pub open spec fn key_views(keys: Seq<(String, u64)>) -> Seq<CommitmentKey> {
    keys.map_values(|k: (String, u64)| (k.0@, k.1))
}

} // verus!
