//! Sets of pairs of numbers.

use vstd::prelude::*;

verus! {

/// A set of pairs of numbers.
#[derive(Debug)]
pub struct PairSet {
    items: Vec<(usize, usize)>,
}

impl View for PairSet {
    type V = Set<(usize, usize)>;

    closed spec fn view(&self) -> Set<(usize, usize)> {
        self.items@.to_set()
    }
}

impl PairSet {
    #[verifier::type_invariant]
    spec fn well_formed(self) -> bool {
        self.items@.no_duplicates()
    }

    /// The set without items.
    pub fn new() -> (r: PairSet)
        ensures
            r@ == Set::<(usize, usize)>::empty(),
    {
        let r = PairSet { items: Vec::new() };
        assert(r@ =~= Set::<(usize, usize)>::empty());
        r
    }

    fn find(items: &Vec<(usize, usize)>, item: (usize, usize)) -> (r: Option<usize>)
        ensures
            match r {
                Some(i) => i < items@.len() && items@[i as int] == item,
                None => !items@.contains(item),
            },
    {
        let mut i: usize = 0;
        while i < items.len()
            invariant
                i <= items@.len(),
                forall|k: int| 0 <= k < i ==> #[trigger] items@[k] != item,
            decreases items@.len() - i,
        {
            if items[i].0 == item.0 && items[i].1 == item.1 {
                return Some(i);
            }
            i += 1;
        }
        None
    }

    /// Whether the set holds a pair.
    pub fn contains(&self, item: &(usize, usize)) -> (r: bool)
        ensures
            r == self@.contains(*item),
    {
        PairSet::find(&self.items, *item).is_some()
    }

    /// Adds a pair.
    pub fn insert(&mut self, item: (usize, usize))
        ensures
            final(self)@ == old(self)@.insert(item),
    {
        proof {
            use_type_invariant(&*self);
        }
        let ghost before = self.items@;
        let mut items: Vec<(usize, usize)> = Vec::new();
        std::mem::swap(&mut items, &mut self.items);
        match PairSet::find(&items, item) {
            Some(_) => {
                assert(before.to_set() =~= before.to_set().insert(item));
            },
            None => {
                items.push(item);
                assert forall|x: (usize, usize)| #[trigger]
                    before.push(item).to_set().contains(x) <==> before.to_set().insert(
                        item,
                    ).contains(x) by {
                    if before.contains(x) {
                        let k = choose|k: int| 0 <= k < before.len() && before[k] == x;
                        assert(before.push(item)[k] == x);
                    }
                    assert(before.push(item)[before.len() as int] == item);
                }
                assert(before.push(item).to_set() =~= before.to_set().insert(item));
            },
        }
        self.items = items;
    }

    /// Takes a pair out. Returns whether the set held it.
    pub fn remove(&mut self, item: &(usize, usize)) -> (r: bool)
        ensures
            r == old(self)@.contains(*item),
            final(self)@ == old(self)@.remove(*item),
    {
        proof {
            use_type_invariant(&*self);
        }
        let ghost before = self.items@;
        let mut items: Vec<(usize, usize)> = Vec::new();
        std::mem::swap(&mut items, &mut self.items);
        let r = match PairSet::find(&items, *item) {
            Some(i) => {
                items.remove(i);
                proof {
                    lemma_removed(before, i as int);
                }
                true
            },
            None => {
                assert(before.to_set() =~= before.to_set().remove(*item));
                false
            },
        };
        self.items = items;
        r
    }

    /// Takes every pair out.
    pub fn clear(&mut self)
        ensures
            final(self)@ == Set::<(usize, usize)>::empty(),
    {
        self.items = Vec::new();
        assert(self@ =~= Set::<(usize, usize)>::empty());
    }

    /// How many pairs the set holds.
    pub fn len(&self) -> (r: usize)
        ensures
            r == self@.len(),
    {
        proof {
            use_type_invariant(self);
            self.items@.unique_seq_to_set();
        }
        self.items.len()
    }

    /// Whether the set holds no pair.
    pub fn is_empty(&self) -> (r: bool)
        ensures
            r == (self@ == Set::<(usize, usize)>::empty()),
    {
        let n = self.items.len();
        proof {
            if n == 0 {
                assert(self@ =~= Set::<(usize, usize)>::empty());
            } else {
                assert(self@.contains(self.items@[0]));
            }
        }
        n == 0
    }
}

proof fn lemma_removed(before: Seq<(usize, usize)>, i: int)
    requires
        before.no_duplicates(),
        0 <= i < before.len(),
    ensures
        before.remove(i).no_duplicates(),
        before.remove(i).to_set() == before.to_set().remove(before[i]),
{
    let after = before.remove(i);
    assert forall|x: (usize, usize)| #[trigger] after.to_set().contains(x) <==> before.to_set().remove(
        before[i],
    ).contains(x) by {
        if after.contains(x) {
            let k = choose|k: int| 0 <= k < after.len() && after[k] == x;
            if k < i {
                assert(before[k] == x);
            } else {
                assert(before[k + 1] == x);
            }
        }
        if before.contains(x) && x != before[i] {
            let k = choose|k: int| 0 <= k < before.len() && before[k] == x;
            if k < i {
                assert(after[k] == x);
            } else {
                assert(after[k - 1] == x);
            }
        }
    }
    assert(after.to_set() =~= before.to_set().remove(before[i]));
}

} // verus!
