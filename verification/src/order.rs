//! Stable ordering of items by a 64-bit key.

use vstd::prelude::*;

verus! {

/// Index `i` comes before index `j`: by key, and by position where keys are equal.
pub open spec fn sorts_before(keys: Seq<u64>, i: int, j: int) -> bool {
    keys[i] < keys[j] || (keys[i] == keys[j] && i < j)
}

/// `order` lists the indices of `keys` by ascending key, with equal keys in
/// the order in which they are given.
pub open spec fn is_stable_order(keys: Seq<u64>, order: Seq<int>) -> bool {
    &&& order.len() == keys.len()
    &&& forall|a: int| 0 <= a < order.len() ==> 0 <= #[trigger] order[a] < keys.len()
    &&& forall|a: int, b: int|
        0 <= a < b < order.len() ==> sorts_before(keys, #[trigger] order[a], #[trigger] order[b])
}

/// The stable order of `keys`: there is one and only one.
pub open spec fn stable_order_of(keys: Seq<u64>) -> Seq<int> {
    choose|order: Seq<int>| is_stable_order(keys, order)
}

/// The items in ascending order of their keys, equal keys in the order in which they are given.
pub open spec fn arranged<T>(items: Seq<T>, keys: Seq<u64>) -> Seq<T> {
    Seq::new(items.len(), |a: int| items[stable_order_of(keys)[a]])
}

/// A stable order names every index.
pub proof fn lemma_stable_order_is_complete(keys: Seq<u64>, order: Seq<int>, i: int)
    requires
        is_stable_order(keys, order),
        0 <= i < keys.len(),
    ensures
        order.contains(i),
{
    let n = keys.len() as int;
    let range = vstd::set_lib::set_int_range(0, n);
    vstd::set_lib::lemma_int_range(0, n);
    assert(order.no_duplicates());
    order.unique_seq_to_set();
    assert forall|x: int| #[trigger] order.to_set().contains(x) implies range.contains(x) by {
        let a = order.index_of(x);
        assert(order[a] == x);
    }
    vstd::set_lib::lemma_subset_equality(order.to_set(), range);
    assert(order.to_set().contains(i));
}

/// There is at most one stable order.
pub proof fn lemma_stable_order_is_unique(keys: Seq<u64>, p: Seq<int>, q: Seq<int>)
    requires
        is_stable_order(keys, p),
        is_stable_order(keys, q),
    ensures
        p == q,
{
    assert forall|a: int| 0 <= a < p.len() implies #[trigger] p[a] == q[a] by {
        lemma_same_entry(keys, p, q, a);
    }
    assert(p =~= q);
}

proof fn lemma_same_entry(keys: Seq<u64>, p: Seq<int>, q: Seq<int>, a: int)
    requires
        is_stable_order(keys, p),
        is_stable_order(keys, q),
        0 <= a < p.len(),
    ensures
        p[a] == q[a],
    decreases a,
{
    assert forall|b: int| 0 <= b < a implies #[trigger] p[b] == q[b] by {
        lemma_same_entry(keys, p, q, b);
    }
    if p[a] != q[a] {
        lemma_stable_order_is_complete(keys, q, p[a]);
        lemma_stable_order_is_complete(keys, p, q[a]);
        let b = q.index_of(p[a]);
        let c = p.index_of(q[a]);
        assert(q[b] == p[a] && p[c] == q[a]);
        if b < a {
            assert(p[b] == q[b]);
            assert(sorts_before(keys, p[b], p[a]));
        }
        if c < a {
            assert(p[c] == q[c]);
            assert(sorts_before(keys, q[c], q[a]));
        }
        assert(sorts_before(keys, q[a], q[b]));
        assert(sorts_before(keys, p[a], p[c]));
    }
}

/// A list of indices that is a stable order is the stable order.
pub proof fn lemma_stable_order_found(keys: Seq<u64>, order: Seq<int>)
    requires
        is_stable_order(keys, order),
    ensures
        stable_order_of(keys) == order,
{
    lemma_stable_order_is_unique(keys, stable_order_of(keys), order);
}

/// The indices of a vector as mathematical integers.
pub open spec fn as_ints(order: Seq<usize>) -> Seq<int> {
    Seq::new(order.len(), |a: int| order[a] as int)
}

proof fn lemma_insert_keeps_order(keys: Seq<u64>, n: int, order: Seq<int>, at: int)
    requires
        0 <= n < keys.len(),
        is_stable_order(keys.take(n), order),
        0 <= at <= n,
        forall|a: int| 0 <= a < at ==> keys[#[trigger] order[a]] <= keys[n],
        forall|a: int| at <= a < n ==> keys[#[trigger] order[a]] > keys[n],
    ensures
        is_stable_order(keys.take(n + 1), order.insert(at, n)),
{
    let next = order.insert(at, n);
    let before = keys.take(n);
    let after = keys.take(n + 1);
    assert forall|a: int| 0 <= a < next.len() implies 0 <= #[trigger] next[a] < after.len() by {
        if a < at {
            assert(next[a] == order[a]);
        } else if a > at {
            assert(next[a] == order[a - 1]);
        }
    }
    assert forall|a: int, b: int| 0 <= a < b < next.len() implies sorts_before(
        after,
        #[trigger] next[a],
        #[trigger] next[b],
    ) by {
        let old_a = if a < at { a } else { a - 1 };
        let old_b = if b < at { b } else { b - 1 };
        if a != at {
            assert(next[a] == order[old_a]);
        }
        if b != at {
            assert(next[b] == order[old_b]);
        }
        if a != at && b != at {
            assert(sorts_before(before, order[old_a], order[old_b]));
        }
    }
}

/// Lists the indices of `keys` by ascending key, equal keys in the given
/// order. Keys that are already ascending take one comparison each.
pub fn stable_order(keys: &[u64]) -> (r: Vec<usize>)
    ensures
        is_stable_order(keys@, as_ints(r@)),
        as_ints(r@) == stable_order_of(keys@),
        r@.len() == keys@.len(),
        forall|a: int| 0 <= a < r@.len() ==> #[trigger] r@[a] < keys@.len(),
        forall|a: int, b: int|
            0 <= a < b < r@.len() ==> {
                ||| keys@[#[trigger] r@[a] as int] < keys@[#[trigger] r@[b] as int]
                ||| keys@[r@[a] as int] == keys@[r@[b] as int] && r@[a] < r@[b]
            },
{
    let mut order: Vec<usize> = Vec::new();
    let mut n: usize = 0;
    while n < keys.len()
        invariant
            n <= keys@.len(),
            is_stable_order(keys@.take(n as int), as_ints(order@)),
        decreases keys@.len() - n,
    {
        let mut at: usize = n;
        let ghost ints = as_ints(order@);
        proof {
            assert forall|a: int| 0 <= a < n implies 0 <= #[trigger] order@[a] < n by {
                assert(ints[a] == order@[a]);
            }
        }
        while at > 0 && keys[order[at - 1]] > keys[n]
            invariant
                at <= n < keys@.len(),
                order@.len() == n,
                ints == as_ints(order@),
                forall|a: int| 0 <= a < n ==> 0 <= #[trigger] order@[a] < n,
                forall|a: int| at <= a < n ==> keys@[#[trigger] ints[a]] > keys@[n as int],
            decreases at,
        {
            at = at - 1;
        }
        proof {
            assert forall|a: int| 0 <= a < at implies keys@[#[trigger] ints[a]]
                <= keys@[n as int] by {
                if a < at - 1 {
                    assert(sorts_before(keys@.take(n as int), ints[a], ints[at - 1]));
                }
                assert(keys@.take(n as int)[ints[a]] == keys@[ints[a]]);
                assert(keys@.take(n as int)[ints[at - 1]] == keys@[ints[at - 1]]);
                assert(ints[at - 1] == order@[at - 1]);
            }
            lemma_insert_keeps_order(keys@, n as int, ints, at as int);
        }
        order.insert(at, n);
        assert(as_ints(order@) =~= ints.insert(at as int, n as int));
        n = n + 1;
    }
    assert(keys@.take(n as int) =~= keys@);
    proof {
        let ints = as_ints(order@);
        lemma_stable_order_found(keys@, ints);
        assert forall|a: int| 0 <= a < order@.len() implies #[trigger] order@[a]
            < keys@.len() by {
            assert(ints[a] == order@[a]);
        }
        assert forall|a: int, b: int| 0 <= a < b < order@.len() implies {
            ||| keys@[#[trigger] order@[a] as int] < keys@[#[trigger] order@[b] as int]
            ||| keys@[order@[a] as int] == keys@[order@[b] as int] && order@[a] < order@[b]
        } by {
            assert(sorts_before(keys@, ints[a], ints[b]));
        }
    }
    order
}

proof fn lemma_stable_order_grows(keys: Seq<u64>) -> (at: int)
    requires
        keys.len() > 0,
        is_stable_order(keys.drop_last(), stable_order_of(keys.drop_last())),
    ensures
        0 <= at < keys.len(),
        is_stable_order(keys, stable_order_of(keys)),
        stable_order_of(keys) == stable_order_of(keys.drop_last()).insert(at, keys.len() - 1),
{
    let n = keys.len() - 1;
    assert(keys.take(n) =~= keys.drop_last());
    let order = stable_order_of(keys.take(n));
    let at = insertion_point(keys, order, n, n);
    lemma_insertion_point(keys, order, n, n);
    assert forall|a: int| 0 <= a < at implies keys[#[trigger] order[a]] <= keys[n] by {
        if a < at - 1 {
            assert(sorts_before(keys.take(n), order[a], order[at - 1]));
        }
        assert(keys.take(n)[order[a]] == keys[order[a]]);
        assert(keys.take(n)[order[at - 1]] == keys[order[at - 1]]);
    }
    lemma_insert_keeps_order(keys, n, order, at);
    assert(keys.take(n + 1) =~= keys);
    lemma_stable_order_found(keys, order.insert(at, n));
    at
}

/// Every list of keys has a stable order.
pub proof fn lemma_stable_order_exists(keys: Seq<u64>)
    ensures
        is_stable_order(keys, stable_order_of(keys)),
    decreases keys.len(),
{
    if keys.len() == 0 {
        assert(is_stable_order(keys, Seq::<int>::empty()));
    } else {
        lemma_stable_order_exists(keys.drop_last());
        let _ = lemma_stable_order_grows(keys);
    }
}

/// Arranging items neither adds, drops nor changes any.
pub proof fn lemma_arranged_keeps_items<T>(items: Seq<T>, keys: Seq<u64>)
    requires
        items.len() == keys.len(),
    ensures
        arranged(items, keys).to_multiset() == items.to_multiset(),
    decreases keys.len(),
{
    if keys.len() == 0 {
        assert(arranged(items, keys) =~= items);
    } else {
        let n = keys.len() - 1;
        let shorter = items.drop_last();
        lemma_stable_order_exists(keys.drop_last());
        lemma_arranged_keeps_items(shorter, keys.drop_last());
        let at = lemma_stable_order_grows(keys);
        let rest = arranged(shorter, keys.drop_last());
        let order = stable_order_of(keys.drop_last());
        assert forall|a: int| 0 <= a < n implies shorter[#[trigger] order[a]]
            == items[order[a]] by {}
        assert(arranged(items, keys) =~= rest.insert(at, items[n]));
        vstd::seq_lib::to_multiset_insert(rest, at, items[n]);
        vstd::seq_lib::to_multiset_insert(shorter, n, items[n]);
        assert(shorter.insert(n, items[n]) =~= items);
    }
}

spec fn insertion_point(keys: Seq<u64>, order: Seq<int>, n: int, at: int) -> int
    decreases at,
{
    if at <= 0 || keys[order[at - 1]] <= keys[n] {
        at
    } else {
        insertion_point(keys, order, n, at - 1)
    }
}

proof fn lemma_insertion_point(keys: Seq<u64>, order: Seq<int>, n: int, at: int)
    requires
        0 <= at <= n,
        n == order.len(),
        forall|a: int| at <= a < n ==> keys[#[trigger] order[a]] > keys[n],
    ensures
        ({
            let r = insertion_point(keys, order, n, at);
            &&& 0 <= r <= n
            &&& forall|a: int| r <= a < n ==> keys[#[trigger] order[a]] > keys[n]
            &&& r > 0 ==> keys[order[r - 1]] <= keys[n]
        }),
    decreases at,
{
    if at > 0 && keys[order[at - 1]] > keys[n] {
        lemma_insertion_point(keys, order, n, at - 1);
    }
}

/// Arranging items by their keys puts in place `a` the item that some ranking of the
/// indices has in place `a`: by ascending key, and by index where keys are equal.
pub proof fn lemma_arranged_by_rank<T>(items: Seq<T>, keys: Seq<u64>) -> (rank: Seq<int>)
    requires
        items.len() == keys.len(),
    ensures
        rank.len() == keys.len(),
        forall|a: int| 0 <= a < rank.len() ==> 0 <= #[trigger] rank[a] < keys.len(),
        forall|a: int, b: int|
            0 <= a < b < rank.len() ==> {
                ||| keys[#[trigger] rank[a]] < keys[#[trigger] rank[b]]
                ||| keys[rank[a]] == keys[rank[b]] && rank[a] < rank[b]
            },
        arranged(items, keys).len() == items.len(),
        forall|a: int|
            0 <= a < items.len() ==> #[trigger] arranged(items, keys)[a] == items[rank[a]],
{
    lemma_stable_order_exists(keys);
    let rank = stable_order_of(keys);
    assert forall|a: int, b: int| 0 <= a < b < rank.len() implies {
        ||| keys[#[trigger] rank[a]] < keys[#[trigger] rank[b]]
        ||| keys[rank[a]] == keys[rank[b]] && rank[a] < rank[b]
    } by {
        assert(sorts_before(keys, rank[a], rank[b]));
    }
    rank
}

} // verus!
