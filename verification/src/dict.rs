use vstd::prelude::*;
use crate::text::same_text;

verus! {

/// A finite map from names to values, kept as a list of entries. Where a
/// name occurs more than once, its last entry counts.
#[derive(Debug)]
pub struct Dict<V> {
    pub entries: Vec<(String, V)>,
}

/// The map that a list of entries stands for.
pub open spec fn entries_map<V>(entries: Seq<(String, V)>) -> Map<Seq<char>, V>
    decreases entries.len(),
{
    if entries.len() == 0 {
        Map::empty()
    } else {
        entries_map(entries.drop_last()).insert(entries.last().0@, entries.last().1)
    }
}

/// No entry from `from` on is filed under `key`.
pub open spec fn absent_from<V>(entries: Seq<(String, V)>, key: Seq<char>, from: int) -> bool {
    forall|j: int| from <= j < entries.len() ==> (#[trigger] entries[j]).0@ != key
}

proof fn lemma_absent<V>(entries: Seq<(String, V)>, key: Seq<char>)
    requires
        absent_from(entries, key, 0),
    ensures
        !entries_map(entries).contains_key(key),
    decreases entries.len(),
{
    if entries.len() > 0 {
        let front = entries.drop_last();
        assert forall|j: int| 0 <= j < front.len() implies (#[trigger] front[j]).0@ != key by {
            assert(front[j] == entries[j]);
        }
        lemma_absent(front, key);
        assert(entries.last() == entries[entries.len() - 1]);
    }
}

proof fn lemma_last_entry<V>(entries: Seq<(String, V)>, key: Seq<char>, i: int)
    requires
        0 <= i < entries.len(),
        entries[i].0@ == key,
        absent_from(entries, key, i + 1),
    ensures
        entries_map(entries).contains_key(key),
        entries_map(entries)[key] == entries[i].1,
    decreases entries.len(),
{
    let front = entries.drop_last();
    if i < entries.len() - 1 {
        assert(entries.last() == entries[entries.len() - 1]);
        assert(front[i] == entries[i]);
        assert forall|j: int| i + 1 <= j < front.len() implies (#[trigger] front[j]).0@ != key by {
            assert(front[j] == entries[j]);
        }
        lemma_last_entry(front, key, i);
    }
}

proof fn lemma_replace_entry<V>(entries: Seq<(String, V)>, i: int, entry: (String, V))
    requires
        0 <= i < entries.len(),
        entries[i].0@ == entry.0@,
        absent_from(entries, entry.0@, i + 1),
    ensures
        entries_map(entries.update(i, entry)) == entries_map(entries).insert(entry.0@, entry.1),
    decreases entries.len(),
{
    let after = entries.update(i, entry);
    let front = entries.drop_last();
    if i == entries.len() - 1 {
        assert(after.drop_last() =~= front);
        assert(entries_map(after) =~= entries_map(entries).insert(entry.0@, entry.1));
    } else {
        assert(entries.last() == entries[entries.len() - 1]);
        assert(after.drop_last() =~= front.update(i, entry));
        assert(front[i] == entries[i]);
        assert forall|j: int| i + 1 <= j < front.len() implies (#[trigger] front[j]).0@
            != entry.0@ by {
            assert(front[j] == entries[j]);
        }
        lemma_replace_entry(front, i, entry);
        assert(entries_map(after) =~= entries_map(entries).insert(entry.0@, entry.1));
    }
}

impl<V> View for Dict<V> {
    type V = Map<Seq<char>, V>;

    open spec fn view(&self) -> Map<Seq<char>, V> {
        entries_map(self.entries@)
    }
}

impl<V> Dict<V> {
    /// The empty map.
    pub fn new() -> (r: Self)
        ensures
            r@ == Map::<Seq<char>, V>::empty(),
    {
        Dict { entries: Vec::new() }
    }

    /// The index of the last entry filed under `key`.
    fn position(&self, key: &str) -> (r: Option<usize>)
        ensures
            match r {
                Some(i) => i < self.entries@.len() && self.entries@[i as int].0@ == key@
                    && absent_from(self.entries@, key@, i + 1),
                None => absent_from(self.entries@, key@, 0),
            },
    {
        let mut i: usize = self.entries.len();
        while i > 0
            invariant
                i <= self.entries@.len(),
                absent_from(self.entries@, key@, i as int),
            decreases i,
        {
            i -= 1;
            if same_text(self.entries[i].0.as_str(), key) {
                return Some(i);
            }
        }
        None
    }

    /// The value filed under `key`, if there is one.
    pub fn get(&self, key: &str) -> (r: Option<&V>)
        ensures
            match r {
                Some(v) => self@.contains_key(key@) && self@[key@] == *v,
                None => !self@.contains_key(key@),
            },
    {
        match self.position(key) {
            Some(i) => {
                proof {
                    lemma_last_entry(self.entries@, key@, i as int);
                }
                Some(&self.entries[i].1)
            },
            None => {
                proof {
                    lemma_absent(self.entries@, key@);
                }
                None
            },
        }
    }

    /// Whether a value is filed under `key`.
    pub fn contains_key(&self, key: &str) -> (r: bool)
        ensures
            r == self@.contains_key(key@),
    {
        self.get(key).is_some()
    }

    /// Files `value` under `key`, in place of what was filed there before.
    pub fn insert(&mut self, key: String, value: V)
        ensures
            final(self)@ == old(self)@.insert(key@, value),
    {
        match self.position(key.as_str()) {
            Some(i) => {
                proof {
                    lemma_replace_entry(self.entries@, i as int, (key, value));
                }
                self.entries.set(i, (key, value));
            },
            None => {
                let ghost before = self.entries@;
                self.entries.push((key, value));
                assert(self.entries@.drop_last() =~= before);
            },
        }
    }
}

} // verus!
