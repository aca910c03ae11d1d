//! Ranking: the order that lists positions by descending key, equal keys
//! in the order they came in.

use vstd::prelude::*;

verus! {

/// The keys as mathematical integers.
pub open spec fn key_values(keys: Seq<u128>) -> Seq<int> {
    Seq::new(keys.len(), |i: int| keys[i] as int)
}

/// The positions as mathematical integers.
pub open spec fn position_values(order: Seq<usize>) -> Seq<int> {
    Seq::new(order.len(), |i: int| order[i] as int)
}

/// Whether `order` lists each of the positions `0..n` exactly once.
pub open spec fn is_arrangement(order: Seq<int>, n: int) -> bool {
    &&& order.len() == n
    &&& forall|i: int| 0 <= i < n ==> 0 <= #[trigger] order[i] < n
    &&& forall|i: int, j: int| 0 <= i < j < n ==> #[trigger] order[i] != #[trigger] order[j]
    &&& forall|v: int| 0 <= v < n ==> #[trigger] order.contains(v)
}

/// Whether position `a` ranks before position `b`: its key is larger, or
/// the keys are equal and `a` comes first.
pub open spec fn ranks_before(keys: Seq<int>, a: int, b: int) -> bool {
    keys[a] > keys[b] || (keys[a] == keys[b] && a < b)
}

/// Whether `order` is the ranking of the first `n` positions of `keys`.
pub open spec fn is_ranking_of(keys: Seq<int>, order: Seq<int>, n: int) -> bool {
    &&& is_arrangement(order, n)
    &&& forall|i: int, j: int|
        0 <= i < j < n ==> ranks_before(keys, #[trigger] order[i], #[trigger] order[j])
}

/// Whether `order` is the ranking of `keys`: every position once, by
/// descending key, equal keys in the order they came in.
pub open spec fn is_ranking(keys: Seq<int>, order: Seq<int>) -> bool {
    is_ranking_of(keys, order, keys.len() as int)
}

/// The ranking of `keys`.
pub open spec fn ranking(keys: Seq<int>) -> Seq<int> {
    choose|order: Seq<int>| is_ranking(keys, order)
}

/// The items in the given order.
pub open spec fn arranged<T>(items: Seq<T>, order: Seq<int>) -> Seq<T> {
    Seq::new(items.len(), |r: int| items[order[r]])
}

/// The items ranked by their keys: largest key first, equal keys in the
/// order of the items.
pub open spec fn ranked<T>(items: Seq<T>, keys: Seq<int>) -> Seq<T> {
    arranged(items, ranking(keys))
}

/// Two rankings of the same keys that agree up to a place agree at it.
proof fn lemma_rankings_agree_at(keys: Seq<int>, first: Seq<int>, second: Seq<int>, i: int)
    requires
        is_ranking(keys, first),
        is_ranking(keys, second),
        0 <= i < keys.len(),
        forall|k: int| 0 <= k < i ==> first[k] == second[k],
    ensures
        first[i] == second[i],
{
    let a = first[i];
    let b = second[i];
    if a != b {
        assert(second.contains(a));
        let j = choose|j: int| 0 <= j < second.len() && second[j] == a;
        assert(first.contains(b));
        let l = choose|l: int| 0 <= l < first.len() && first[l] == b;
        if j < i {
            assert(first[j] == second[j]);
            assert(first[j] != first[i]);
        } else if l < i {
            assert(first[l] == second[l]);
            assert(second[l] != second[i]);
        } else {
            assert(ranks_before(keys, second[i], second[j]));
            assert(ranks_before(keys, first[i], first[l]));
        }
    }
}

proof fn lemma_rankings_agree_upto(keys: Seq<int>, first: Seq<int>, second: Seq<int>, n: int)
    requires
        is_ranking(keys, first),
        is_ranking(keys, second),
        0 <= n <= keys.len(),
    ensures
        forall|k: int| 0 <= k < n ==> first[k] == second[k],
    decreases n,
{
    if n > 0 {
        lemma_rankings_agree_upto(keys, first, second, n - 1);
        lemma_rankings_agree_at(keys, first, second, n - 1);
    }
}

/// Keys have one ranking only.
pub proof fn lemma_ranking_unique(keys: Seq<int>, order: Seq<int>)
    requires
        is_ranking(keys, order),
    ensures
        order == ranking(keys),
{
    let chosen = ranking(keys);
    lemma_rankings_agree_upto(keys, order, chosen, keys.len() as int);
    assert(order =~= chosen);
}

/// A ranking puts the keys in descending order.
pub proof fn lemma_ranking_descends(keys: Seq<int>, order: Seq<int>, i: int, j: int)
    requires
        is_ranking(keys, order),
        0 <= i <= j < keys.len(),
    ensures
        0 <= order[i] < keys.len(),
        0 <= order[j] < keys.len(),
        keys[order[i]] >= keys[order[j]],
{
    if i < j {
        assert(ranks_before(keys, order[i], order[j]));
    }
}

/// Putting the next position into a ranking, behind everything that
/// ranks before it and ahead of the rest, gives the ranking of one
/// position more.
proof fn lemma_insert_ranks(keys: Seq<int>, order: Seq<int>, n: int, at: int)
    requires
        0 <= n < keys.len(),
        is_ranking_of(keys, order, n),
        0 <= at <= n,
        forall|i: int| 0 <= i < at ==> keys[#[trigger] order[i]] >= keys[n],
        at < n ==> keys[order[at]] < keys[n],
    ensures
        is_ranking_of(keys, order.insert(at, n), n + 1),
{
    let next = order.insert(at, n);
    assert forall|i: int| 0 <= i < n + 1 implies 0 <= #[trigger] next[i] < n + 1 by {
        if i < at {
            assert(next[i] == order[i]);
        } else if i > at {
            assert(next[i] == order[i - 1]);
        }
    }
    assert forall|i: int, j: int| 0 <= i < j < n + 1 implies #[trigger] next[i] != #[trigger] next[j]
        && ranks_before(keys, next[i], next[j]) by {
        let a = if i < at {
            i
        } else {
            i - 1
        };
        let b = if j < at {
            j
        } else {
            j - 1
        };
        if i != at {
            assert(next[i] == order[a]);
        }
        if j != at {
            assert(next[j] == order[b]);
        }
        if i == at {
            // everything behind the new position has a smaller key
            if at < b {
                assert(ranks_before(keys, order[at], order[b]));
            }
        } else if j == at {
        } else {
            assert(ranks_before(keys, order[a], order[b]));
        }
    }
    assert forall|v: int| 0 <= v < n + 1 implies #[trigger] next.contains(v) by {
        if v == n {
            assert(next[at] == v);
        } else {
            assert(order.contains(v));
            let w = choose|w: int| 0 <= w < order.len() && order[w] == v;
            if w < at {
                assert(next[w] == v);
            } else {
                assert(next[w + 1] == v);
            }
        }
    }
}

/// The place at which the next position goes into a ranking: behind
/// everything whose key is no smaller.
proof fn find_place(keys: Seq<int>, order: Seq<int>, n: int, from: int) -> (at: int)
    requires
        0 <= n < keys.len(),
        is_ranking_of(keys, order, n),
        0 <= from <= n,
        forall|i: int| 0 <= i < from ==> keys[#[trigger] order[i]] >= keys[n],
    ensures
        0 <= at <= n,
        forall|i: int| 0 <= i < at ==> keys[#[trigger] order[i]] >= keys[n],
        at < n ==> keys[order[at]] < keys[n],
    decreases n - from,
{
    if from < n && keys[order[from]] >= keys[n] {
        find_place(keys, order, n, from + 1)
    } else {
        from
    }
}

proof fn rank_first(keys: Seq<int>, n: int) -> (order: Seq<int>)
    requires
        0 <= n <= keys.len(),
    ensures
        is_ranking_of(keys, order, n),
    decreases n,
{
    if n == 0 {
        let order = Seq::<int>::empty();
        assert(is_arrangement(order, 0));
        order
    } else {
        let before = rank_first(keys, n - 1);
        let at = find_place(keys, before, n - 1, 0);
        lemma_insert_ranks(keys, before, n - 1, at);
        before.insert(at, n - 1)
    }
}

/// Every sequence of keys has a ranking.
pub proof fn lemma_ranking_exists(keys: Seq<int>)
    ensures
        is_ranking(keys, ranking(keys)),
{
    let order = rank_first(keys, keys.len() as int);
    assert(is_ranking(keys, order));
}

/// Ranking keeps every item and adds none: the ranked sequence is as long
/// as the items, each of its entries is one of the items, and each item
/// is one of its entries.
pub proof fn lemma_ranked_complete<T>(items: Seq<T>, keys: Seq<int>)
    requires
        keys.len() == items.len(),
    ensures
        ranked(items, keys).len() == items.len(),
        forall|r: int|
            0 <= r < items.len() ==> 0 <= #[trigger] ranking(keys)[r] < items.len() && ranked(
                items,
                keys,
            )[r] == items[ranking(keys)[r]],
        forall|i: int| 0 <= i < items.len() ==> #[trigger] ranked(items, keys).contains(items[i]),
{
    lemma_ranking_exists(keys);
    let order = ranking(keys);
    assert forall|i: int| 0 <= i < items.len() implies #[trigger] ranked(items, keys).contains(
        items[i],
    ) by {
        assert(order.contains(i));
        let r = choose|r: int| 0 <= r < order.len() && order[r] == i;
        assert(ranked(items, keys)[r] == items[i]);
    }
}

/// Ranks the positions of `keys`: largest key first, equal keys in the
/// order they came in.
pub fn rank_descending(keys: &Vec<u128>) -> (order: Vec<usize>)
    ensures
        is_ranking(key_values(keys@), position_values(order@)),
        position_values(order@) == ranking(key_values(keys@)),
        order.len() == keys.len(),
{
    let mut order: Vec<usize> = Vec::new();
    let mut n: usize = 0;
    while n < keys.len()
        invariant
            n <= keys.len(),
            is_ranking_of(key_values(keys@), position_values(order@), n as int),
        decreases keys.len() - n,
    {
        let ghost before = position_values(order@);
        let mut at: usize = 0;
        proof {
            assert forall|i: int| 0 <= i < order.len() implies #[trigger] order@[i] < n by {
                assert(before[i] == order@[i]);
            }
        }
        while at < order.len() && keys[order[at]] >= keys[n]
            invariant
                n < keys.len(),
                order.len() == n,
                at <= order.len(),
                forall|i: int| 0 <= i < order.len() ==> #[trigger] order@[i] < n,
                is_ranking_of(key_values(keys@), position_values(order@), n as int),
                forall|i: int|
                    0 <= i < at ==> key_values(keys@)[#[trigger] position_values(order@)[i]]
                        >= keys[n as int],
            decreases order.len() - at,
        {
            at += 1;
        }
        proof {
            if at < order.len() {
                assert(position_values(order@)[at as int] == order[at as int]);
            }
            lemma_insert_ranks(key_values(keys@), before, n as int, at as int);
        }
        order.insert(at, n);
        proof {
            assert(position_values(order@) =~= before.insert(at as int, n as int));
        }
        n += 1;
    }
    proof {
        lemma_ranking_unique(key_values(keys@), position_values(order@));
    }
    order
}

} // verus!
