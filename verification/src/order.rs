//! Sorting by a number, equal ones staying in their order.

use vstd::prelude::*;

verus! {

/// An item put behind those that rank no higher than it.
pub open spec fn inserted<T>(sorted: Seq<(i128, T)>, item: (i128, T)) -> Seq<(i128, T)>
    decreases sorted.len(),
{
    if sorted.len() == 0 || sorted.last().0 <= item.0 {
        sorted.push(item)
    } else {
        inserted(sorted.drop_last(), item).push(sorted.last())
    }
}

/// Ranked items in the order of their ranks, items of equal rank in the order they came in.
pub open spec fn sorted<T>(items: Seq<(i128, T)>) -> Seq<(i128, T)>
    decreases items.len(),
{
    if items.len() == 0 {
        seq![]
    } else {
        inserted(sorted(items.drop_last()), items.last())
    }
}

/// The items without their ranks.
pub open spec fn unranked<T>(items: Seq<(i128, T)>) -> Seq<T> {
    Seq::new(items.len(), |i: int| items[i].1)
}

proof fn lemma_inserted_at<T>(s: Seq<(i128, T)>, item: (i128, T), p: int)
    requires
        0 <= p <= s.len(),
        p > 0 ==> s[p - 1].0 <= item.0,
        forall|k: int| p <= k < s.len() ==> (#[trigger] s[k]).0 > item.0,
    ensures
        inserted(s, item) == s.insert(p, item),
    decreases s.len(),
{
    if p == s.len() {
        assert(s.insert(p, item) =~= s.push(item));
    } else {
        assert(s.last() == s[s.len() - 1]);
        let front = s.drop_last();
        assert forall|k: int| p <= k < front.len() implies (#[trigger] front[k]).0 > item.0 by {
            assert(s[k].0 > item.0);
        }
        lemma_inserted_at(front, item, p);
        assert(s.insert(p, item) =~= front.insert(p, item).push(s.last()));
    }
}

/// Puts an item behind those that rank no higher than it.
pub fn insert_ranked<T: DeepView>(items: &mut Vec<(i128, T)>, rank: i128, item: T)
    ensures
        final(items).deep_view() == inserted(old(items).deep_view(), (rank, item.deep_view())),
{
    let ghost before = items.deep_view();
    let mut p: usize = items.len();
    while p > 0 && items[p - 1].0 > rank
        invariant
            p <= items@.len(),
            items.deep_view() == before,
            forall|k: int| p <= k < before.len() ==> (#[trigger] before[k]).0 > rank,
        ensures
            p == 0 || before[p - 1].0 <= rank,
        decreases p,
    {
        assert(before[p - 1].0 == items@[p - 1].0);
        p -= 1;
    }
    let ghost added = (rank, item.deep_view());
    proof {
        if p > 0 {
            assert(before[p - 1].0 == items@[p - 1].0);
        }
        lemma_inserted_at(before, added, p as int);
    }
    items.insert(p, (rank, item));
    assert(items.deep_view() =~= before.insert(p as int, added));
}

/// Whether the ranks never fall.
pub open spec fn ascending<T>(items: Seq<(i128, T)>) -> bool {
    forall|i: int, j: int|
        0 <= i <= j < items.len() ==> (#[trigger] items[i]).0 <= (#[trigger] items[j]).0
}

/// The items of one rank.
pub open spec fn of_rank<T>(items: Seq<(i128, T)>, rank: i128) -> Seq<(i128, T)>
    decreases items.len(),
{
    if items.len() == 0 {
        seq![]
    } else if items.last().0 == rank {
        of_rank(items.drop_last(), rank).push(items.last())
    } else {
        of_rank(items.drop_last(), rank)
    }
}

proof fn lemma_inserted_ascends<T>(s: Seq<(i128, T)>, item: (i128, T))
    requires
        ascending(s),
    ensures
        ascending(inserted(s, item)),
        inserted(s, item).len() == s.len() + 1,
        forall|i: int|
            0 <= i < inserted(s, item).len() ==> (#[trigger] inserted(s, item)[i]).0 <= item.0 || (
            s.len() > 0 && inserted(s, item)[i].0 <= s.last().0),
    decreases s.len(),
{
    let r = inserted(s, item);
    if s.len() == 0 || s.last().0 <= item.0 {
        assert forall|i: int, j: int| 0 <= i <= j < r.len() implies (#[trigger] r[i]).0 <= (
        #[trigger] r[j]).0 by {
            if j < s.len() {
                assert(s[i].0 <= s[j].0);
            } else if i < s.len() {
                assert(s[i].0 <= s[s.len() - 1].0);
            }
        }
        assert forall|i: int| 0 <= i < r.len() implies (#[trigger] r[i]).0 <= item.0 by {
            if i < s.len() {
                assert(s[i].0 <= s[s.len() - 1].0);
            }
        }
    } else {
        let front = s.drop_last();
        assert(ascending(front)) by {
            assert forall|i: int, j: int| 0 <= i <= j < front.len() implies (#[trigger] front[i]).0
                <= (#[trigger] front[j]).0 by {
                assert(s[i].0 <= s[j].0);
            }
        }
        lemma_inserted_ascends(front, item);
        let f = inserted(front, item);
        if front.len() > 0 {
            assert(s[front.len() - 1].0 <= s[s.len() - 1].0);
        }
        assert forall|i: int| 0 <= i < f.len() implies (#[trigger] f[i]).0 <= s.last().0 by {}
        assert forall|i: int, j: int| 0 <= i <= j < r.len() implies (#[trigger] r[i]).0 <= (
        #[trigger] r[j]).0 by {
            if j < f.len() {
                assert(f[i].0 <= f[j].0);
            } else if i < f.len() {
                assert(f[i].0 <= s.last().0);
            }
        }
        assert forall|i: int| 0 <= i < r.len() implies (#[trigger] r[i]).0 <= s.last().0 by {
            if i < f.len() {
                assert(f[i].0 <= s.last().0);
            }
        }
    }
}

proof fn lemma_inserted_of_rank<T>(s: Seq<(i128, T)>, item: (i128, T), rank: i128)
    requires
        ascending(s),
    ensures
        of_rank(inserted(s, item), rank) == if item.0 == rank {
            of_rank(s, rank).push(item)
        } else {
            of_rank(s, rank)
        },
    decreases s.len(),
{
    if s.len() == 0 || s.last().0 <= item.0 {
        assert(s.push(item).drop_last() =~= s);
    } else {
        let front = s.drop_last();
        assert forall|i: int, j: int| 0 <= i <= j < front.len() implies (#[trigger] front[i]).0 <= (
        #[trigger] front[j]).0 by {
            assert(s[i].0 <= s[j].0);
        }
        lemma_inserted_of_rank(front, item, rank);
        assert(inserted(front, item).push(s.last()).drop_last() =~= inserted(front, item));
    }
}

/// Sorting ranks: the ranks never fall.
pub proof fn sorting_ascends<T>(items: Seq<(i128, T)>)
    ensures
        ascending(sorted(items)),
        sorted(items).len() == items.len(),
    decreases items.len(),
{
    if items.len() > 0 {
        sorting_ascends(items.drop_last());
        lemma_inserted_ascends(sorted(items.drop_last()), items.last());
    }
}

/// Sorting is stable and loses nothing: the items of each rank are the same, in the same order.
pub proof fn sorting_is_stable<T>(items: Seq<(i128, T)>, rank: i128)
    ensures
        of_rank(sorted(items), rank) == of_rank(items, rank),
    decreases items.len(),
{
    if items.len() > 0 {
        sorting_ascends(items.drop_last());
        sorting_is_stable(items.drop_last(), rank);
        lemma_inserted_of_rank(sorted(items.drop_last()), items.last(), rank);
    }
}

proof fn lemma_inserted_member<T>(s: Seq<(i128, T)>, item: (i128, T), k: int)
    requires
        0 <= k < inserted(s, item).len(),
    ensures
        inserted(s, item)[k] == item || s.contains(inserted(s, item)[k]),
    decreases s.len(),
{
    let r = inserted(s, item);
    if s.len() == 0 || s.last().0 <= item.0 {
        if k < s.len() {
            assert(s[k] == r[k]);
        }
    } else if k < r.len() - 1 {
        lemma_inserted_member(s.drop_last(), item, k);
        if s.drop_last().contains(r[k]) {
            let j = choose|j: int| 0 <= j < s.drop_last().len() && s.drop_last()[j] == r[k];
            assert(s[j] == r[k]);
        }
    } else {
        assert(s[s.len() - 1] == r[k]);
    }
}

/// Sorted items are among the items.
pub proof fn sorting_invents_nothing<T>(items: Seq<(i128, T)>, k: int)
    requires
        0 <= k < sorted(items).len(),
    ensures
        items.contains(sorted(items)[k]),
    decreases items.len(),
{
    let before = sorted(items.drop_last());
    lemma_inserted_member(before, items.last(), k);
    let x = sorted(items)[k];
    if x == items.last() {
        assert(items[items.len() - 1] == x);
    } else {
        let j = choose|j: int| 0 <= j < before.len() && before[j] == x;
        sorting_invents_nothing(items.drop_last(), j);
        let i = choose|i: int| 0 <= i < items.drop_last().len() && items.drop_last()[i] == x;
        assert(items[i] == x);
    }
}

proof fn lemma_inserted_place<T>(s: Seq<(i128, T)>, item: (i128, T)) -> (p: int)
    ensures
        0 <= p <= s.len(),
        inserted(s, item) == s.insert(p, item),
        p > 0 ==> s[p - 1].0 <= item.0,
        forall|k: int| p <= k < s.len() ==> (#[trigger] s[k]).0 > item.0,
    decreases s.len(),
{
    if s.len() == 0 || s.last().0 <= item.0 {
        assert(s.insert(s.len() as int, item) =~= s.push(item));
        s.len() as int
    } else {
        let front = s.drop_last();
        let p = lemma_inserted_place(front, item);
        assert(s.insert(p, item) =~= front.insert(p, item).push(s.last()));
        assert forall|k: int| p <= k < s.len() implies (#[trigger] s[k]).0 > item.0 by {
            if k < front.len() {
                assert(front[k] == s[k]);
            }
        }
        if p > 0 {
            assert(front[p - 1] == s[p - 1]);
        }
        p
    }
}

/// Whether `places` holds the place of every item once, those of lower rank first, and of equal
/// rank those that came in first.
pub open spec fn ranks_places<T>(items: Seq<(i128, T)>, places: Seq<int>) -> bool {
    &&& places.len() == items.len()
    &&& forall|k: int| 0 <= k < places.len() ==> 0 <= (#[trigger] places[k]) < items.len()
    &&& forall|n: int| 0 <= n < items.len() ==> #[trigger] places.contains(n)
    &&& forall|i: int, j: int|
        0 <= i < j < places.len() ==> {
            let x = #[trigger] places[i];
            let y = #[trigger] places[j];
            items[x].0 < items[y].0 || (items[x].0 == items[y].0 && x < y)
        }
}

/// Sorting puts every item in one place, by rank and then by when it came in.
pub proof fn sorting_is_a_ranking<T>(items: Seq<(i128, T)>) -> (places: Seq<int>)
    ensures
        ranks_places(items, places),
        sorted(items) == Seq::new(places.len(), |k: int| items[places[k]]),
    decreases items.len(),
{
    if items.len() == 0 {
        assert(sorted(items) =~= Seq::new(0, |k: int| items[k]));
        seq![]
    } else {
        let front = items.drop_last();
        let item = items.last();
        let n = front.len() as int;
        let before = sorting_is_a_ranking(front);
        let s = sorted(front);
        let p = lemma_inserted_place(s, item);
        let places = before.insert(p, n);
        assert forall|k: int| 0 <= k < places.len() implies 0 <= (#[trigger] places[k])
            < items.len() by {
            if k < p {
                assert(places[k] == before[k]);
            } else if k > p {
                assert(places[k] == before[k - 1]);
            }
        }
        assert forall|m: int| 0 <= m < items.len() implies #[trigger] places.contains(m) by {
            if m == n {
                assert(places[p] == n);
            } else {
                assert(before.contains(m));
                let k = choose|k: int| 0 <= k < before.len() && before[k] == m;
                if k < p {
                    assert(places[k] == m);
                } else {
                    assert(places[k + 1] == m);
                }
            }
        }
        assert forall|i: int, j: int| 0 <= i < j < places.len() implies {
            let x = #[trigger] places[i];
            let y = #[trigger] places[j];
            items[x].0 < items[y].0 || (items[x].0 == items[y].0 && x < y)
        } by {
            let i0 = if i < p {
                i
            } else {
                i - 1
            };
            let j0 = if j < p {
                j
            } else {
                j - 1
            };
            if i != p {
                assert(places[i] == before[i0]);
                assert(items[before[i0]] == front[before[i0]]);
                assert(s[i0] == front[before[i0]]);
            }
            if j != p {
                assert(places[j] == before[j0]);
                assert(items[before[j0]] == front[before[j0]]);
                assert(s[j0] == front[before[j0]]);
            }
            if j == p {
                assert(s[p - 1] == front[before[p - 1]]);
                if i < p - 1 {
                    assert(front[before[i]].0 <= front[before[p - 1]].0);
                }
            }
        }
        assert(sorted(items) =~= Seq::new(places.len(), |k: int| items[places[k]])) by {
            assert forall|k: int| 0 <= k < places.len() implies sorted(items)[k]
                == items[places[k]] by {
                if k < p {
                    assert(places[k] == before[k]);
                    assert(s[k] == front[before[k]]);
                } else if k > p {
                    assert(places[k] == before[k - 1]);
                    assert(s[k - 1] == front[before[k - 1]]);
                }
            }
        }
        places
    }
}

} // verus!
