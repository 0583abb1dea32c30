//! A map from child ids to values.
use vstd::prelude::*;

verus! {

/// The ids of a list of entries, in the order of the list.
pub open spec fn entry_ids<V>(entries: Seq<(String, V)>) -> Seq<Seq<char>> {
    entries.map_values(|entry: (String, V)| entry.0@)
}

/// The map that a list of entries stands for.
pub open spec fn entry_map<V>(entries: Seq<(String, V)>) -> Map<Seq<char>, V> {
    Map::new(
        |id: Seq<char>| entry_ids(entries).contains(id),
        |id: Seq<char>| entries[entry_ids(entries).index_of(id)].1,
    )
}

/// A map keyed by child id. Each id occurs at most once.
pub struct ChildMap<V> {
    entries: Vec<(String, V)>,
}

impl<V> View for ChildMap<V> {
    type V = Map<Seq<char>, V>;

    closed spec fn view(&self) -> Map<Seq<char>, V> {
        entry_map(self.entries@)
    }
}

/// Where ids are distinct, the map holds what stands beside each id.
proof fn lemma_entry_map<V>(entries: Seq<(String, V)>)
    requires
        entry_ids(entries).no_duplicates(),
    ensures
        forall|i: int|
            0 <= i < entries.len() ==> {
                &&& entry_map(entries).contains_key((#[trigger] entries[i]).0@)
                &&& entry_map(entries)[entries[i].0@] == entries[i].1
            },
        forall|id: Seq<char>| #[trigger]
            entry_map(entries).contains_key(id) ==> exists|i: int|
                0 <= i < entries.len() && (#[trigger] entries[i]).0@ == id,
        entry_map(entries).dom().finite(),
        entry_map(entries).len() == entries.len(),
{
    let ids = entry_ids(entries);
    assert forall|i: int| 0 <= i < entries.len() implies {
        &&& entry_map(entries).contains_key((#[trigger] entries[i]).0@)
        &&& entry_map(entries)[entries[i].0@] == entries[i].1
    } by {
        assert(ids[i] == entries[i].0@);
        assert(ids.contains(ids[i]));
        let j = ids.index_of(ids[i]);
        assert(0 <= j < ids.len() && ids[j] == ids[i]);
        assert(i == j);
    }
    assert forall|id: Seq<char>| #[trigger] entry_map(entries).contains_key(id) implies exists|
        i: int,
    | 0 <= i < entries.len() && (#[trigger] entries[i]).0@ == id by {
        let i = ids.index_of(id);
        assert(ids[i] == id);
        assert(entries[i].0@ == id);
    }
    ids.unique_seq_to_set();
    assert(entry_map(entries).dom() =~= ids.to_set());
}

impl<V> ChildMap<V> {
    #[verifier::type_invariant]
    spec fn ids_are_distinct(self) -> bool {
        entry_ids(self.entries@).no_duplicates()
    }

    /// The map without entries.
    pub fn new() -> (map: Self)
        ensures
            map@ == Map::<Seq<char>, V>::empty(),
    {
        let entries: Vec<(String, V)> = Vec::new();
        assert(entry_ids(entries@) =~= Seq::<Seq<char>>::empty());
        let map = ChildMap { entries };
        assert(map@ =~= Map::<Seq<char>, V>::empty());
        map
    }

    /// The number of entries.
    pub fn len(&self) -> (n: usize)
        ensures
            n == self@.len(),
            self@.dom().finite(),
    {
        proof {
            use_type_invariant(self);
            lemma_entry_map(self.entries@);
        }
        self.entries.len()
    }

    /// Whether there is no entry.
    pub fn is_empty(&self) -> (empty: bool)
        ensures
            empty == (self@ == Map::<Seq<char>, V>::empty()),
    {
        proof {
            use_type_invariant(self);
            lemma_entry_map(self.entries@);
            if self.entries@.len() == 0 {
                assert(self@ =~= Map::<Seq<char>, V>::empty());
            } else {
                assert(self@.contains_key(self.entries@[0].0@));
            }
        }
        self.entries.len() == 0
    }

    /// The position of the entry for `id`.
    fn position(&self, id: &str) -> (pos: Option<usize>)
        ensures
            match pos {
                Some(i) => i < self.entries@.len() && self.entries@[i as int].0@ == id@,
                None => forall|i: int|
                    0 <= i < self.entries@.len() ==> (#[trigger] self.entries@[i]).0@ != id@,
            },
    {
        let key: String = id.to_owned();
        let mut i: usize = 0;
        while i < self.entries.len()
            invariant
                key@ == id@,
                i <= self.entries@.len(),
                forall|j: int| 0 <= j < i ==> (#[trigger] self.entries@[j]).0@ != id@,
            decreases self.entries@.len() - i,
        {
            if self.entries[i].0 == key {
                return Some(i);
            }
            i = i + 1;
        }
        None
    }

    /// Whether there is an entry for `id`.
    pub fn contains_key(&self, id: &str) -> (found: bool)
        ensures
            found == self@.contains_key(id@),
    {
        proof {
            use_type_invariant(self);
            lemma_entry_map(self.entries@);
        }
        self.position(id).is_some()
    }

    /// The value for `id`, if there is one.
    pub fn get(&self, id: &str) -> (value: Option<&V>)
        ensures
            match value {
                Some(v) => self@.contains_key(id@) && *v == self@[id@],
                None => !self@.contains_key(id@),
            },
    {
        proof {
            use_type_invariant(self);
            lemma_entry_map(self.entries@);
        }
        match self.position(id) {
            Some(i) => Some(&self.entries[i].1),
            None => None,
        }
    }

    /// Puts `value` in for `id`, in place of the value that stood there if any.
    pub fn insert(&mut self, id: String, value: V)
        ensures
            final(self)@ == old(self)@.insert(id@, value),
    {
        proof {
            use_type_invariant(&*self);
            lemma_entry_map(self.entries@);
        }
        let ghost before = self.entries@;
        let pos = self.position(id.as_str());
        let ghost new_id = id@;
        let mut entries: Vec<(String, V)> = Vec::new();
        assert(entry_ids(entries@) =~= Seq::<Seq<char>>::empty());
        std::mem::swap(&mut entries, &mut self.entries);
        match pos {
            Some(i) => {
                entries.set(i, (id, value));
                assert(entry_ids(entries@) =~= entry_ids(before));
            },
            None => {
                entries.push((id, value));
                proof {
                    let ids = entry_ids(entries@);
                    assert(ids =~= entry_ids(before).push(new_id));
                    assert forall|i: int, j: int|
                        0 <= i < ids.len() && 0 <= j < ids.len() && i != j implies ids[i]
                        != ids[j] by {
                        if i < before.len() {
                            assert(ids[i] == before[i].0@);
                        }
                        if j < before.len() {
                            assert(ids[j] == before[j].0@);
                        }
                    }
                }
            },
        }
        proof {
            lemma_entry_map(entries@);
            lemma_same_map_after_insert(before, entries@, new_id, value);
        }
        self.entries = entries;
    }

    /// Takes the entry for `id` out and gives its value.
    pub fn remove(&mut self, id: &str) -> (value: Option<V>)
        ensures
            match value {
                Some(v) => old(self)@.contains_key(id@) && v == old(self)@[id@],
                None => !old(self)@.contains_key(id@),
            },
            final(self)@ == old(self)@.remove(id@),
    {
        proof {
            use_type_invariant(&*self);
            lemma_entry_map(self.entries@);
        }
        let ghost before = self.entries@;
        match self.position(id) {
            Some(i) => {
                let mut entries: Vec<(String, V)> = Vec::new();
                assert(entry_ids(entries@) =~= Seq::<Seq<char>>::empty());
                std::mem::swap(&mut entries, &mut self.entries);
                let removed = entries.remove(i);
                proof {
                    assert(entry_ids(entries@) =~= entry_ids(before).remove(i as int));
                    lemma_entry_map(entries@);
                    lemma_same_map_after_remove(before, i as int);
                }
                self.entries = entries;
                Some(removed.1)
            },
            None => {
                assert(self@ =~= self@.remove(id@));
                None
            },
        }
    }
}

impl<V: Clone> Clone for ChildMap<V> {
    fn clone(&self) -> (copy: Self)
        ensures
            copy@.dom() == self@.dom(),
            forall|id: Seq<char>| #[trigger]
                copy@.contains_key(id) ==> cloned(self@[id], copy@[id]),
    {
        let mut entries: Vec<(String, V)> = Vec::new();
        let mut i: usize = 0;
        while i < self.entries.len()
            invariant
                i <= self.entries@.len(),
                entries@.len() == i,
                forall|j: int|
                    0 <= j < i ==> {
                        &&& (#[trigger] entries@[j]).0@ == self.entries@[j].0@
                        &&& cloned(self.entries@[j].1, entries@[j].1)
                    },
            decreases self.entries@.len() - i,
        {
            entries.push((self.entries[i].0.clone(), self.entries[i].1.clone()));
            i = i + 1;
        }
        proof {
            use_type_invariant(self);
            assert(entry_ids(entries@) =~= entry_ids(self.entries@));
            lemma_entry_map(self.entries@);
            lemma_entry_map(entries@);
        }
        let copy = ChildMap { entries };
        proof {
            assert forall|id: Seq<char>| #[trigger] copy@.contains_key(id) implies cloned(
                self@[id],
                copy@[id],
            ) by {
                let j = choose|j: int| 0 <= j < entries@.len() && (#[trigger] entries@[j]).0@ == id;
                assert(self.entries@[j].0@ == id);
            }
        }
        copy
    }
}

/// Writing one entry's value, or adding an entry for a new id, is an insertion.
proof fn lemma_same_map_after_insert<V>(
    before: Seq<(String, V)>,
    after: Seq<(String, V)>,
    id: Seq<char>,
    value: V,
)
    requires
        entry_ids(before).no_duplicates(),
        entry_ids(after).no_duplicates(),
        ({
            ||| exists|i: int|
                0 <= i < before.len() && (#[trigger] before[i]).0@ == id && after.len()
                    == before.len() && after[i].0@ == id && after[i].1 == value && (forall|j: int|
                    0 <= j < before.len() && j != i ==> after[j] == #[trigger] before[j])
            ||| after.len() == before.len() + 1 && after.last().0@ == id && after.last().1 == value
                && (forall|j: int| 0 <= j < before.len() ==> after[j] == #[trigger] before[j])
        }),
    ensures
        entry_map(after) == entry_map(before).insert(id, value),
{
    lemma_entry_map(before);
    lemma_entry_map(after);
    let target = entry_map(before).insert(id, value);
    assert forall|k: Seq<char>| #[trigger]
        entry_map(after).contains_key(k) implies target.contains_key(k) && entry_map(after)[k]
        == target[k] by {
        let i = choose|i: int| 0 <= i < after.len() && (#[trigger] after[i]).0@ == k;
        if i < before.len() {
            assert(before[i].0@ == k);
        }
    }
    assert forall|k: Seq<char>| #[trigger] target.contains_key(k) implies entry_map(
        after,
    ).contains_key(k) by {
        if k == id {
            if after.len() == before.len() {
                let i = choose|i: int| 0 <= i < before.len() && (#[trigger] before[i]).0@ == id;
                assert(after[i].0@ == id);
            } else {
                assert(after[after.len() - 1].0@ == id);
            }
        } else {
            let i = choose|i: int| 0 <= i < before.len() && (#[trigger] before[i]).0@ == k;
            assert(after[i] == before[i]);
        }
    }
    assert(entry_map(after) =~= target);
}

/// Dropping one entry takes its id out of the map.
proof fn lemma_same_map_after_remove<V>(before: Seq<(String, V)>, i: int)
    requires
        0 <= i < before.len(),
        entry_ids(before).no_duplicates(),
        entry_ids(before.remove(i)).no_duplicates(),
    ensures
        entry_map(before.remove(i)) == entry_map(before).remove(before[i].0@),
{
    let after = before.remove(i);
    let id = before[i].0@;
    lemma_entry_map(before);
    lemma_entry_map(after);
    let ids = entry_ids(before);
    assert forall|k: Seq<char>| #[trigger] entry_map(after).contains_key(k) implies entry_map(
        before,
    ).remove(id).contains_key(k) && entry_map(after)[k] == entry_map(before)[k] by {
        let j = choose|j: int| 0 <= j < after.len() && (#[trigger] after[j]).0@ == k;
        let b = if j < i { j } else { j + 1 };
        assert(after[j] == before[b]);
        assert(ids[b] == k && ids[i] == id);
    }
    assert forall|k: Seq<char>| #[trigger]
        entry_map(before).remove(id).contains_key(k) implies entry_map(after).contains_key(k) by {
        let b = choose|b: int| 0 <= b < before.len() && (#[trigger] before[b]).0@ == k;
        let j = if b < i { b } else { b - 1 };
        assert(after[j] == before[b]);
    }
    assert(entry_map(after) =~= entry_map(before).remove(id));
}

} // verus!
