//! A small table from keys to values, kept as a list of entries in which
//! no key stands twice.

use vstd::prelude::*;

verus! {

/// What can key a table: a value that stands for a mathematical one, and
/// can be compared by it.
pub trait Key: Sized {
    /// What two keys have to share to be one key.
    type Id;

    spec fn id(&self) -> Self::Id;

    fn same(&self, other: &Self) -> (b: bool)
        ensures
            b == (self.id() == other.id()),
    ;
}

impl Key for String {
    type Id = Seq<char>;

    open spec fn id(&self) -> Seq<char> {
        self@
    }

    fn same(&self, other: &String) -> (b: bool) {
        *self == *other
    }
}

/// The map that a list of entries stands for.
pub open spec fn entries_map<K: Key, V>(entries: Seq<(K, V)>) -> Map<K::Id, V>
    decreases entries.len(),
{
    if entries.len() == 0 {
        Map::empty()
    } else {
        entries_map(entries.drop_last()).insert(entries.last().0.id(), entries.last().1)
    }
}

/// No key stands twice in the list.
pub open spec fn keys_distinct<K: Key, V>(entries: Seq<(K, V)>) -> bool {
    forall|i: int, j: int|
        0 <= i < j < entries.len() ==> (#[trigger] entries[i]).0.id() != (#[trigger] entries[j]).0.id()
}

/// A key is in the map exactly if an entry has it.
pub proof fn lemma_entries_map_contains<K: Key, V>(entries: Seq<(K, V)>, k: K::Id)
    ensures
        entries_map(entries).contains_key(k) <==> exists|i: int|
            0 <= i < entries.len() && (#[trigger] entries[i]).0.id() == k,
    decreases entries.len(),
{
    if entries.len() > 0 {
        let before = entries.drop_last();
        let last = entries.len() - 1;
        lemma_entries_map_contains(before, k);
        assert(entries_map(entries) == entries_map(before).insert(
            entries[last].0.id(),
            entries[last].1,
        ));
        if entries_map(entries).contains_key(k) {
            if k == entries[last].0.id() {
                assert(entries[last].0.id() == k);
            } else {
                assert(entries_map(before).contains_key(k));
                let i = choose|i: int| 0 <= i < before.len() && (#[trigger] before[i]).0.id() == k;
                assert(entries[i] == before[i]);
                assert(entries[i].0.id() == k);
            }
        }
        if exists|i: int| 0 <= i < entries.len() && (#[trigger] entries[i]).0.id() == k {
            let i = choose|i: int| 0 <= i < entries.len() && (#[trigger] entries[i]).0.id() == k;
            if i < last {
                assert(before[i] == entries[i]);
                assert(before[i].0.id() == k);
            }
        }
    }
}

/// With distinct keys the map gives each key the value of its entry.
pub proof fn lemma_entries_map_value<K: Key, V>(entries: Seq<(K, V)>, at: int)
    requires
        keys_distinct(entries),
        0 <= at < entries.len(),
    ensures
        entries_map(entries).contains_key(entries[at].0.id()),
        entries_map(entries)[entries[at].0.id()] == entries[at].1,
    decreases entries.len(),
{
    let before = entries.drop_last();
    let last = entries.len() - 1;
    assert(entries_map(entries) == entries_map(before).insert(
        entries[last].0.id(),
        entries[last].1,
    ));
    if at < last {
        assert forall|i: int, j: int| 0 <= i < j < before.len() implies (
        #[trigger] before[i]).0.id() != (#[trigger] before[j]).0.id() by {
            assert(before[i] == entries[i] && before[j] == entries[j]);
        }
        assert(before[at] == entries[at]);
        lemma_entries_map_value(before, at);
        assert(entries[at].0.id() != entries[last].0.id());
    }
}

/// Taking an entry out of a list of distinct keys takes its key out of
/// the map.
pub proof fn lemma_entries_map_remove<K: Key, V>(entries: Seq<(K, V)>, at: int)
    requires
        keys_distinct(entries),
        0 <= at < entries.len(),
    ensures
        keys_distinct(entries.remove(at)),
        entries_map(entries.remove(at)) == entries_map(entries).remove(entries[at].0.id()),
{
    let out = entries.remove(at);
    assert forall|i: int, j: int| 0 <= i < j < out.len() implies (#[trigger] out[i]).0.id() != (
    #[trigger] out[j]).0.id() by {
        let i2 = if i < at { i } else { i + 1 };
        let j2 = if j < at { j } else { j + 1 };
        assert(out[i] == entries[i2] && out[j] == entries[j2]);
    }
    let k0 = entries[at].0.id();
    let left = entries_map(out);
    let right = entries_map(entries).remove(k0);
    assert forall|k: K::Id| left.contains_key(k) <==> right.contains_key(k) by {
        lemma_entries_map_contains(out, k);
        lemma_entries_map_contains(entries, k);
        if left.contains_key(k) {
            let i = choose|i: int| 0 <= i < out.len() && (#[trigger] out[i]).0.id() == k;
            let i2 = if i < at { i } else { i + 1 };
            assert(out[i] == entries[i2]);
            assert(entries[i2].0.id() == k);
            assert(entries[at].0.id() == k0);
        }
        if right.contains_key(k) {
            let i = choose|i: int| 0 <= i < entries.len() && (#[trigger] entries[i]).0.id() == k;
            let i2 = if i < at { i } else { i - 1 };
            assert(out[i2] == entries[i]);
            assert(out[i2].0.id() == k);
        }
    }
    assert forall|k: K::Id| left.contains_key(k) implies left[k] == right[k] by {
        lemma_entries_map_contains(out, k);
        let i = choose|i: int| 0 <= i < out.len() && (#[trigger] out[i]).0.id() == k;
        let i2 = if i < at { i } else { i + 1 };
        assert(out[i] == entries[i2]);
        lemma_entries_map_value(out, i);
        lemma_entries_map_value(entries, i2);
    }
    assert(left =~= right);
}

/// A table from keys to values.
#[derive(Debug)]
pub struct Table<K: Key, V> {
    entries: Vec<(K, V)>,
}

impl<K: Key, V> View for Table<K, V> {
    type V = Map<K::Id, V>;

    closed spec fn view(&self) -> Map<K::Id, V> {
        entries_map(self.entries@)
    }
}

impl<K: Key, V> Table<K, V> {
    /// No key stands twice among the entries.
    pub closed spec fn wf(&self) -> bool {
        keys_distinct(self.entries@)
    }

    /// The entries in the order in which their keys came in.
    pub closed spec fn spec_entries(&self) -> Seq<(K, V)> {
        self.entries@
    }

    /// The map of a table is the map of its entries, and a table as it
    /// should be has no key twice among them.
    pub proof fn lemma_view(&self)
        ensures
            self@ == entries_map(self.spec_entries()),
            self.wf() == keys_distinct(self.spec_entries()),
    {
    }

    pub fn new() -> (t: Self)
        ensures
            t.wf(),
            t@ == Map::<K::Id, V>::empty(),
            t.spec_entries().len() == 0,
    {
        Table { entries: Vec::new() }
    }

    /// The place of the entry with this key.
    fn position(&self, key: &K) -> (at: Option<usize>)
        ensures
            at matches Some(i) ==> i < self.entries@.len() && self.entries@[i as int].0.id()
                == key.id(),
            at is None ==> forall|i: int|
                0 <= i < self.entries@.len() ==> (#[trigger] self.entries@[i]).0.id() != key.id(),
    {
        let mut i: usize = 0;
        while i < self.entries.len()
            invariant
                i <= self.entries.len(),
                forall|j: int| 0 <= j < i ==> (#[trigger] self.entries@[j]).0.id() != key.id(),
            decreases self.entries.len() - i,
        {
            if self.entries[i].0.same(key) {
                return Some(i);
            }
            i += 1;
        }
        None
    }

    /// The value of a key, if the table has the key.
    pub fn get(&self, key: &K) -> (v: Option<&V>)
        requires
            self.wf(),
        ensures
            v is Some <==> self@.contains_key(key.id()),
            v matches Some(value) ==> *value == self@[key.id()],
    {
        proof {
            lemma_entries_map_contains(self.entries@, key.id());
        }
        match self.position(key) {
            Some(i) => {
                proof {
                    lemma_entries_map_value(self.entries@, i as int);
                }
                Some(&self.entries[i].1)
            },
            None => None,
        }
    }

    /// Whether the table has the key.
    pub fn contains_key(&self, key: &K) -> (b: bool)
        requires
            self.wf(),
        ensures
            b == self@.contains_key(key.id()),
    {
        self.get(key).is_some()
    }

    /// Gives the key this value. The result is the value that the key had.
    pub fn insert(&mut self, key: K, value: V) -> (was: Option<V>)
        requires
            old(self).wf(),
        ensures
            final(self).wf(),
            final(self)@ == old(self)@.insert(key.id(), value),
            was is Some <==> old(self)@.contains_key(key.id()),
            was matches Some(v) ==> v == old(self)@[key.id()],
    {
        proof {
            lemma_entries_map_contains(self.entries@, key.id());
        }
        let was = match self.position(&key) {
            Some(i) => {
                proof {
                    lemma_entries_map_remove(self.entries@, i as int);
                    lemma_entries_map_value(self.entries@, i as int);
                }
                Some(self.entries.remove(i).1)
            },
            None => None,
        };
        let ghost before = self.entries@;
        proof {
            lemma_entries_map_contains(before, key.id());
        }
        self.entries.push((key, value));
        proof {
            assert(self.entries@.drop_last() =~= before);
            assert forall|i: int, j: int| 0 <= i < j < self.entries@.len() implies (
            #[trigger] self.entries@[i]).0.id() != (#[trigger] self.entries@[j]).0.id() by {
                if j < before.len() {
                    assert(self.entries@[i] == before[i] && self.entries@[j] == before[j]);
                } else {
                    assert(self.entries@[i] == before[i]);
                }
            }
            assert(self@ =~= old(self)@.insert(key.id(), value));
        }
        was
    }

    /// Takes the key out. The result is the value that the key had.
    pub fn remove(&mut self, key: &K) -> (was: Option<V>)
        requires
            old(self).wf(),
        ensures
            final(self).wf(),
            final(self)@ == old(self)@.remove(key.id()),
            was is Some <==> old(self)@.contains_key(key.id()),
            was matches Some(v) ==> v == old(self)@[key.id()],
    {
        proof {
            lemma_entries_map_contains(self.entries@, key.id());
        }
        match self.position(key) {
            Some(i) => {
                proof {
                    lemma_entries_map_remove(self.entries@, i as int);
                    lemma_entries_map_value(self.entries@, i as int);
                }
                Some(self.entries.remove(i).1)
            },
            None => {
                assert(self@ =~= old(self)@.remove(key.id()));
                None
            },
        }
    }

    /// Whether the table has no key.
    pub fn is_empty(&self) -> (b: bool)
        ensures
            b == (self@.dom() == Set::<K::Id>::empty()),
            b == (self.spec_entries().len() == 0),
    {
        proof {
            if self.entries@.len() > 0 {
                lemma_entries_map_contains(self.entries@, self.entries@[0].0.id());
                assert(self@.contains_key(self.entries@[0].0.id()));
            } else {
                assert(self@.dom() =~= Set::<K::Id>::empty());
            }
        }
        self.entries.len() == 0
    }

    /// The number of keys.
    pub fn len(&self) -> (n: usize)
        ensures
            n == self.spec_entries().len(),
    {
        self.entries.len()
    }

    /// The entry at a place below the number of keys.
    pub fn entry(&self, at: usize) -> (e: (&K, &V))
        requires
            at < self.spec_entries().len(),
        ensures
            *e.0 == self.spec_entries()[at as int].0,
            *e.1 == self.spec_entries()[at as int].1,
    {
        (&self.entries[at].0, &self.entries[at].1)
    }

    /// Takes out the entry at a place below the number of keys.
    pub fn remove_at(&mut self, at: usize) -> (e: (K, V))
        requires
            old(self).wf(),
            at < old(self).spec_entries().len(),
        ensures
            final(self).wf(),
            e == old(self).spec_entries()[at as int],
            final(self).spec_entries() == old(self).spec_entries().remove(at as int),
            final(self)@ == old(self)@.remove(e.0.id()),
    {
        proof {
            lemma_entries_map_remove(self.entries@, at as int);
        }
        self.entries.remove(at)
    }
}

} // verus!
