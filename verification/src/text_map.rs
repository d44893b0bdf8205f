//! Maps from texts.

use vstd::hash_map::StringHashMap;
use vstd::prelude::*;

verus! {

/// A map from texts to values.
pub struct TextMap<V> {
    table: Table<V>,
}

/// The entries of a map, and the place of each key among them.
struct Table<V> {
    entries: Vec<(String, V)>,
    index: StringHashMap<usize>,
}

/// Whether an index gives the place of each key among some entries, and of no other.
spec fn indexed<V>(entries: Seq<(String, V)>, index: Map<Seq<char>, usize>) -> bool {
    &&& forall|key: Seq<char>| #[trigger]
        index.contains_key(key) ==> index[key] < entries.len() && entries[index[key] as int].0@
            == key
    &&& forall|i: int|
        0 <= i < entries.len() ==> index.contains_key((#[trigger] entries[i]).0@)
            && index[entries[i].0@] == i
}

spec fn map_of<V>(entries: Seq<(String, V)>, index: Map<Seq<char>, usize>) -> Map<Seq<char>, V> {
    Map::new(|key: Seq<char>| index.contains_key(key), |key: Seq<char>| entries[index[key] as int].1)
}

impl<V> View for TextMap<V> {
    type V = Map<Seq<char>, V>;

    closed spec fn view(&self) -> Map<Seq<char>, V> {
        map_of(self.table.entries@, self.table.index@)
    }
}

impl<V: DeepView> DeepView for TextMap<V> {
    type V = Map<Seq<char>, V::V>;

    open spec fn deep_view(&self) -> Map<Seq<char>, V::V> {
        self@.map_values(|v: V| v.deep_view())
    }
}

impl<V> Table<V> {
    fn new() -> (r: Table<V>)
        ensures
            r.entries@ == Seq::<(String, V)>::empty(),
            r.index@ == Map::<Seq<char>, usize>::empty(),
    {
        Table { entries: Vec::new(), index: StringHashMap::new() }
    }

    /// The place of a key.
    fn find(&self, key: &str) -> (r: Option<usize>)
        ensures
            match r {
                Some(i) => self.index@.contains_key(key@) && self.index@[key@] == i,
                None => !self.index@.contains_key(key@),
            },
    {
        match self.index.get(key) {
            Some(i) => Some(*i),
            None => None,
        }
    }
}

impl<V> TextMap<V> {
    #[verifier::type_invariant]
    spec fn well_formed(self) -> bool {
        indexed(self.table.entries@, self.table.index@)
    }

    /// The map without entries.
    pub fn new() -> (r: TextMap<V>)
        ensures
            r@ == Map::<Seq<char>, V>::empty(),
    {
        let r = TextMap { table: Table::new() };
        assert(r@ =~= Map::<Seq<char>, V>::empty());
        r
    }

    /// The value of a key.
    pub fn get(&self, key: &str) -> (r: Option<&V>)
        ensures
            r == if self@.contains_key(key@) {
                Some(&self@[key@])
            } else {
                None
            },
    {
        proof {
            use_type_invariant(self);
        }
        match self.table.find(key) {
            Some(i) => Some(&self.table.entries[i].1),
            None => None,
        }
    }

    /// Whether the map has that key.
    pub fn contains_key(&self, key: &str) -> (r: bool)
        ensures
            r == self@.contains_key(key@),
    {
        self.get(key).is_some()
    }

    /// Gives a key a value; an earlier value of the key is dropped.
    pub fn insert(&mut self, key: &str, value: V)
        ensures
            final(self)@ == old(self)@.insert(key@, value),
    {
        proof {
            use_type_invariant(&*self);
        }
        let mut table: Table<V> = Table::new();
        std::mem::swap(&mut table, &mut self.table);
        let ghost before = table.entries@;
        let ghost index = table.index@;
        match table.find(key) {
            Some(i) => {
                table.entries[i].1 = value;
                proof {
                    lemma_replaced(before, table.entries@, index, i, value);
                }
            },
            None => {
                let n = table.entries.len();
                table.index.insert(key.to_owned(), n);
                table.entries.push((key.to_owned(), value));
                proof {
                    lemma_added(before, index, table.entries@.last(), n);
                }
            },
        }
        self.table = table;
    }

    /// Drops a key. Returns whether the map had it.
    pub fn remove(&mut self, key: &str) -> (r: bool)
        ensures
            r == old(self)@.contains_key(key@),
            final(self)@ == old(self)@.remove(key@),
    {
        proof {
            use_type_invariant(&*self);
        }
        let mut table: Table<V> = Table::new();
        std::mem::swap(&mut table, &mut self.table);
        let ghost before = table.entries@;
        let ghost index = table.index@;
        let r = match table.find(key) {
            Some(i) => {
                table.entries.swap_remove(i);
                table.index.remove(key);
                if i < table.entries.len() {
                    let moved = table.entries[i].0.clone();
                    table.index.insert(moved, i);
                }
                proof {
                    lemma_removed(before, index, table.entries@, table.index@, i);
                }
                true
            },
            None => {
                assert(map_of(before, index) =~= map_of(before, index).remove(key@));
                false
            },
        };
        self.table = table;
        r
    }

    /// The keys and values, each key once.
    pub fn entries(&self) -> (r: &Vec<(String, V)>)
        ensures
            forall|i: int, j: int|
                0 <= i < j < r@.len() ==> (#[trigger] r@[i]).0@ != (#[trigger] r@[j]).0@,
            forall|i: int|
                0 <= i < r@.len() ==> self@.contains_key((#[trigger] r@[i]).0@) && self@[r@[i].0@]
                    == r@[i].1,
            forall|key: Seq<char>| #[trigger]
                self@.contains_key(key) ==> exists|i: int|
                    0 <= i < r@.len() && (#[trigger] r@[i]).0@ == key,
    {
        proof {
            use_type_invariant(self);
            assert forall|key: Seq<char>| #[trigger] self@.contains_key(key) implies exists|i: int|
                0 <= i < self.table.entries@.len() && (#[trigger] self.table.entries@[i]).0@
                    == key by {
                let i = self.table.index@[key] as int;
                assert(self.table.entries@[i].0@ == key);
            }
        }
        &self.table.entries
    }
}

proof fn lemma_replaced<V>(
    before: Seq<(String, V)>,
    after: Seq<(String, V)>,
    index: Map<Seq<char>, usize>,
    i: usize,
    value: V,
)
    requires
        indexed(before, index),
        i < before.len(),
        after.len() == before.len(),
        after[i as int].0 == before[i as int].0,
        after[i as int].1 == value,
        forall|k: int| 0 <= k < before.len() && k != i ==> #[trigger] after[k] == before[k],
    ensures
        indexed(after, index),
        map_of(after, index) == map_of(before, index).insert(before[i as int].0@, value),
{
    assert forall|k: int| 0 <= k < after.len() implies (#[trigger] after[k]).0 == before[k].0 by {}
    assert(map_of(after, index) =~= map_of(before, index).insert(before[i as int].0@, value));
}

proof fn lemma_added<V>(
    before: Seq<(String, V)>,
    index: Map<Seq<char>, usize>,
    added: (String, V),
    n: usize,
)
    requires
        indexed(before, index),
        !index.contains_key(added.0@),
        n == before.len(),
    ensures
        indexed(before.push(added), index.insert(added.0@, n)),
        map_of(before.push(added), index.insert(added.0@, n)) == map_of(before, index).insert(
            added.0@,
            added.1,
        ),
{
    let after = before.push(added);
    let now = index.insert(added.0@, n);
    assert forall|k: int| 0 <= k < after.len() implies now.contains_key((#[trigger] after[k]).0@)
        && now[after[k].0@] == k by {
        if k < n {
            assert(after[k] == before[k]);
        }
    }
    assert(map_of(after, now) =~= map_of(before, index).insert(added.0@, added.1));
}

proof fn lemma_removed<V>(
    before: Seq<(String, V)>,
    index: Map<Seq<char>, usize>,
    after: Seq<(String, V)>,
    now: Map<Seq<char>, usize>,
    i: usize,
)
    requires
        indexed(before, index),
        i < before.len(),
        after == before.update(i as int, before.last()).drop_last(),
        now == if i < after.len() {
            index.remove(before[i as int].0@).insert(after[i as int].0@, i)
        } else {
            index.remove(before[i as int].0@)
        },
    ensures
        indexed(after, now),
        map_of(after, now) == map_of(before, index).remove(before[i as int].0@),
{
    let key = before[i as int].0@;
    let n = before.len() - 1;
    assert(before.last() == before[n]);
    assert forall|k: int| 0 <= k < after.len() implies now.contains_key((#[trigger] after[k]).0@)
        && now[after[k].0@] == k by {
        if k != i {
            assert(after[k] == before[k]);
        } else {
            assert(after[k] == before[n]);
        }
    }
    assert forall|k: Seq<char>| #[trigger] now.contains_key(k) implies now[k] < after.len()
        && after[now[k] as int].0@ == k by {
        if i < after.len() && k == after[i as int].0@ {
            assert(after[i as int] == before[n]);
        } else {
            let p = index[k] as int;
            assert(before[p].0@ == k);
            assert(p != n);
            assert(after[p] == before[p]);
        }
    }
    let expected = map_of(before, index).remove(key);
    assert forall|k: Seq<char>| #[trigger] map_of(after, now).contains_key(k)
        <==> expected.contains_key(k) by {
        if i < after.len() {
            assert(after[i as int] == before[n]);
        }
    }
    assert(map_of(after, now) =~= expected) by {
        assert forall|k: Seq<char>| #[trigger] map_of(after, now).contains_key(k) implies map_of(
            after,
            now,
        )[k] == expected[k] by {
            let p = index[k] as int;
            assert(before[p].0@ == k);
            if p == n {
                assert(after[i as int] == before[n]);
            } else {
                assert(after[p] == before[p]);
            }
        }
    }
}

} // verus!
