//! Ordering by rank.

use vstd::prelude::*;

verus! {

/// How many of the leading members of `o` a newcomer of rank `r` goes behind,
/// where `o` is in order of rank.
pub open spec fn place_behind(o: Seq<int>, ranks: Seq<usize>, r: usize) -> int
    decreases o.len(),
{
    if o.len() == 0 {
        0
    } else if ranks[o.last()] <= r {
        o.len() as int
    } else {
        place_behind(o.drop_last(), ranks, r)
    }
}

/// The indices `0..n` in order of their rank, equals in order of index.
pub open spec fn rank_order(ranks: Seq<usize>, n: nat) -> Seq<int>
    decreases n,
{
    if n == 0 {
        Seq::empty()
    } else {
        let o = rank_order(ranks, (n - 1) as nat);
        o.insert(place_behind(o, ranks, ranks[n - 1]), n - 1)
    }
}

/// The members of `items` in order of their rank.
pub open spec fn by_rank<A>(items: Seq<A>, ranks: Seq<usize>) -> Seq<A> {
    rank_order(ranks, ranks.len()).map_values(|i: int| items[i])
}

/// Whether `i` comes before `j`.
pub open spec fn precedes(ranks: Seq<usize>, i: int, j: int) -> bool {
    ranks[i] < ranks[j] || (ranks[i] == ranks[j] && i < j)
}

/// The indices of `ranks` in order of rank; equals keep their order.
pub fn sorted_indices(ranks: &[usize]) -> (order: Vec<usize>)
    ensures
        order@.map_values(|i: usize| i as int) == rank_order(ranks@, ranks@.len()),
        order.len() == ranks.len(),
        forall|k: int| 0 <= k < order.len() ==> (#[trigger] order@[k]) < ranks.len(),
{
    let ghost as_int = |i: usize| i as int;
    let mut order: Vec<usize> = Vec::new();
    let mut n: usize = 0;
    assert(order@.map_values(as_int) =~= Seq::<int>::empty());
    while n < ranks.len()
        invariant
            n <= ranks.len(),
            as_int == (|i: usize| i as int),
            order.len() == n,
            order@.map_values(as_int) == rank_order(ranks@, n as nat),
            forall|k: int| 0 <= k < order.len() ==> (#[trigger] order@[k]) < n,
        decreases ranks.len() - n,
    {
        let ghost o = rank_order(ranks@, n as nat);
        let mut p: usize = n;
        assert(o.take(n as int) =~= o);
        while p > 0 && ranks[order[p - 1]] > ranks[n]
            invariant
                p <= n < ranks.len(),
                as_int == (|i: usize| i as int),
                order.len() == n,
                order@.map_values(as_int) == o,
                forall|k: int| 0 <= k < order.len() ==> (#[trigger] order@[k]) < n,
                place_behind(o, ranks@, ranks@[n as int]) == place_behind(
                    o.take(p as int),
                    ranks@,
                    ranks@[n as int],
                ),
            decreases p,
        {
            assert(o.take(p as int).drop_last() =~= o.take(p - 1));
            assert(o[p - 1] == order@[p - 1] as int);
            p = p - 1;
        }
        proof {
            if p > 0 {
                assert(o.take(p as int).last() == order@[p - 1] as int);
            }
        }
        let ghost before = order@;
        order.insert(p, n);
        assert(order@.map_values(as_int) =~= o.insert(p as int, n as int));
        assert forall|k: int| 0 <= k < order.len() implies (#[trigger] order@[k]) < n + 1 by {
            if k < p {
                assert(order@[k] == before[k]);
            } else if k > p {
                assert(order@[k] == before[k - 1]);
            }
        }
        n = n + 1;
    }
    order
}

/// Ordering by rank neither drops nor repeats anything, puts lower ranks
/// first, and keeps equals in their order.
pub proof fn rank_order_is_stable_and_complete(ranks: Seq<usize>, n: nat)
    requires
        n <= ranks.len(),
    ensures
        rank_order(ranks, n).len() == n,
        rank_order(ranks, n).no_duplicates(),
        forall|i: int| #[trigger] rank_order(ranks, n).contains(i) <==> 0 <= i < n,
        forall|a: int, b: int|
            0 <= a < b < n ==> precedes(
                ranks,
                #[trigger] rank_order(ranks, n)[a],
                #[trigger] rank_order(ranks, n)[b],
            ),
    decreases n,
{
    if n > 0 {
        let o = rank_order(ranks, (n - 1) as nat);
        let x = n - 1;
        rank_order_is_stable_and_complete(ranks, (n - 1) as nat);
        lemma_place(o, ranks, ranks[x]);
        let p = place_behind(o, ranks, ranks[x]);
        let r = o.insert(p, x);
        assert(rank_order(ranks, n) == r);
        assert(r[p] == x);
        assert forall|k: int| 0 <= k < o.len() implies 0 <= #[trigger] o[k] < n - 1 by {
            assert(o.contains(o[k]));
        }
        assert forall|a: int, b: int| 0 <= a < b < n implies precedes(
            ranks,
            #[trigger] r[a],
            #[trigger] r[b],
        ) by {
            if a < p {
                assert(r[a] == o[a]);
            } else if a > p {
                assert(r[a] == o[a - 1]);
            }
            if b < p {
                assert(r[b] == o[b]);
            } else if b > p {
                assert(r[b] == o[b - 1]);
                if p < b - 1 {
                    assert(precedes(ranks, o[p], o[b - 1]));
                }
            }
            if b == p && a < p - 1 {
                assert(precedes(ranks, o[a], o[p - 1]));
            }
        }
        assert forall|i: int| #[trigger] r.contains(i) <==> 0 <= i < n by {
            if 0 <= i < n - 1 {
                assert(o.contains(i));
                let k = choose|k: int| 0 <= k < o.len() && o[k] == i;
                if k < p {
                    assert(r[k] == i);
                } else {
                    assert(r[k + 1] == i);
                }
            }
            if r.contains(i) {
                let k = choose|k: int| 0 <= k < r.len() && r[k] == i;
                if k < p {
                    assert(r[k] == o[k]);
                } else if k > p {
                    assert(r[k] == o[k - 1]);
                }
            }
        }
        assert(r.no_duplicates()) by {
            assert forall|a: int, b: int| 0 <= a < b < r.len() implies r[a] != r[b] by {
                assert(precedes(ranks, r[a], r[b]));
            }
        }
    }
}

proof fn lemma_place(o: Seq<int>, ranks: Seq<usize>, r: usize)
    ensures
        0 <= place_behind(o, ranks, r) <= o.len(),
        place_behind(o, ranks, r) > 0 ==> ranks[o[place_behind(o, ranks, r) - 1]] <= r,
        place_behind(o, ranks, r) < o.len() ==> ranks[o[place_behind(o, ranks, r)]] > r,
    decreases o.len(),
{
    if o.len() > 0 && ranks[o.last()] > r {
        lemma_place(o.drop_last(), ranks, r);
        let p = place_behind(o.drop_last(), ranks, r);
        if p > 0 {
            assert(o.drop_last()[p - 1] == o[p - 1]);
        }
        if p < o.len() - 1 {
            assert(o.drop_last()[p] == o[p]);
        }
    }
}

} // verus!
