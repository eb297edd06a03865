//! A stable ordering by descending key, as `sort_by` with a reversed
//! comparison (or `sort_by_key` with `Reverse`) produces it.

use vstd::prelude::*;

verus! {

/// Index `a` comes before index `b`: a larger key first, equal keys in
/// their input order.
pub open spec fn precedes(keys: Seq<i128>, a: int, b: int) -> bool {
    keys[a] > keys[b] || (keys[a] == keys[b] && a < b)
}

/// `order` lists every index of `keys` exactly once, largest key first, and
/// keeps the input order among equal keys.
pub open spec fn is_stable_desc_order(keys: Seq<i128>, order: Seq<usize>) -> bool {
    is_stable_desc_prefix(keys, order, keys.len() as int)
}

/// The stable descending order of `keys` (there is exactly one; see
/// `lemma_stable_order_unique`).
pub open spec fn stable_desc(keys: Seq<i128>) -> Seq<usize> {
    choose|order: Seq<usize>| is_stable_desc_order(keys, order)
}

/// `order` lists the indices `0..n` of `keys` exactly once, largest key
/// first, equal keys in their input order.
pub open spec fn is_stable_desc_prefix(keys: Seq<i128>, order: Seq<usize>, n: int) -> bool {
    &&& order.len() == n
    &&& forall|t: int| 0 <= t < order.len() ==> #[trigger] order[t] < n
    &&& forall|k: usize| k < n ==> #[trigger] order.contains(k)
    &&& forall|a: int, b: int|
        0 <= a < b < order.len() ==> precedes(keys, #[trigger] order[a] as int, #[trigger] order[b] as int)
}

/// Inserting the next index `i` into a stable descending order of `0..i`,
/// after the indices with keys at least `keys[i]` and before the first
/// with a smaller one, gives a stable descending order of `0..i + 1`.
proof fn lemma_insert_next(keys: Seq<i128>, o: Seq<usize>, i: usize, p: int)
    requires
        i < keys.len(),
        is_stable_desc_prefix(keys, o, i as int),
        0 <= p <= o.len(),
        forall|t: int| 0 <= t < p ==> keys[#[trigger] o[t] as int] >= keys[i as int],
        p < o.len() ==> keys[o[p] as int] < keys[i as int],
    ensures
        is_stable_desc_prefix(keys, o.insert(p, i), i + 1),
{
    let k = keys[i as int];
    let o1 = o.insert(p, i);
    assert forall|t: int| 0 <= t < o1.len() implies #[trigger] o1[t] < i + 1 by {
        if t < p {
            assert(o1[t] == o[t]);
        } else if t > p {
            assert(o1[t] == o[t - 1]);
        }
    }
    assert forall|x: usize| x < i + 1 implies #[trigger] o1.contains(x) by {
        if x == i {
            assert(o1[p] == i);
        } else {
            assert(o.contains(x));
            let t = choose|t: int| 0 <= t < o.len() && o[t] == x;
            if t < p {
                assert(o1[t] == o[t]);
            } else {
                assert(o1[t + 1] == o[t]);
            }
        }
    }
    assert forall|a: int, b: int| 0 <= a < b < o1.len() implies precedes(
        keys,
        #[trigger] o1[a] as int,
        #[trigger] o1[b] as int,
    ) by {
        if b < p {
            assert(o1[a] == o[a]);
            assert(o1[b] == o[b]);
        } else if b == p {
            assert(o1[a] == o[a]);
            assert(keys[o[a] as int] >= k);
            assert(o[a] < i);
        } else if a < p {
            assert(o1[a] == o[a]);
            assert(o1[b] == o[b - 1]);
        } else if a == p {
            assert(o1[b] == o[b - 1]);
            assert(keys[o[p] as int] < k);
            if b - 1 > p {
                assert(precedes(keys, o[p] as int, o[b - 1] as int));
            }
        } else {
            assert(o1[a] == o[a - 1]);
            assert(o1[b] == o[b - 1]);
        }
    }
}

/// Computes the stable descending order of `keys`.
pub fn stable_desc_order(keys: &Vec<i128>) -> (order: Vec<usize>)
    ensures
        is_stable_desc_order(keys@, order@),
        order@ == stable_desc(keys@),
{
    let n = keys.len();
    let mut order: Vec<usize> = Vec::new();
    for i in 0..n
        invariant
            n == keys@.len(),
            is_stable_desc_prefix(keys@, order@, i as int),
    {
        let ki = keys[i];
        let mut p: usize = 0;
        while p < order.len() && keys[order[p]] >= ki
            invariant
                n == keys@.len(),
                i < n,
                ki == keys@[i as int],
                is_stable_desc_prefix(keys@, order@, i as int),
                p <= order@.len(),
                forall|t: int| 0 <= t < p ==> keys@[#[trigger] order@[t] as int] >= ki,
            decreases order@.len() - p,
        {
            p = p + 1;
        }
        proof {
            lemma_insert_next(keys@, order@, i, p as int);
        }
        order.insert(p, i);
    }
    proof {
        lemma_stable_desc_is(keys@, order@);
    }
    order
}

/// Where `x` stands in a stable descending order: before it come exactly
/// the indices that precede it.
proof fn lemma_position_determined(keys: Seq<i128>, o1: Seq<usize>, o2: Seq<usize>, p: int)
    requires
        is_stable_desc_order(keys, o1),
        is_stable_desc_order(keys, o2),
        0 <= p < o1.len(),
        forall|q: int| 0 <= q < p ==> o1[q] == o2[q],
    ensures
        o1[p] == o2[p],
{
    let a = o1[p];
    let b = o2[p];
    if a != b {
        assert(o2.contains(a));
        let qa = choose|q: int| 0 <= q < o2.len() && o2[q] == a;
        assert(o1.contains(b));
        let qb = choose|q: int| 0 <= q < o1.len() && o1[q] == b;
        if qa < p {
            assert(o1[qa] == a);
            assert(precedes(keys, o1[qa] as int, o1[p] as int));
        }
        if qb < p {
            assert(o2[qb] == b);
            assert(precedes(keys, o2[qb] as int, o2[p] as int));
        }
        assert(qa > p);
        assert(qb > p);
        assert(precedes(keys, o2[p] as int, o2[qa] as int));
        assert(precedes(keys, o1[p] as int, o1[qb] as int));
    }
}

/// Two stable descending orders of the same keys agree before `p`.
proof fn lemma_prefix_agrees(keys: Seq<i128>, o1: Seq<usize>, o2: Seq<usize>, p: int)
    requires
        is_stable_desc_order(keys, o1),
        is_stable_desc_order(keys, o2),
        0 <= p <= o1.len(),
    ensures
        forall|q: int| 0 <= q < p ==> o1[q] == o2[q],
    decreases p,
{
    if p > 0 {
        lemma_prefix_agrees(keys, o1, o2, p - 1);
        lemma_position_determined(keys, o1, o2, p - 1);
    }
}

/// There is only one stable descending order of a list of keys, so the
/// newest-first listing is fully determined by the times and walk order.
pub proof fn lemma_stable_order_unique(keys: Seq<i128>, o1: Seq<usize>, o2: Seq<usize>)
    requires
        is_stable_desc_order(keys, o1),
        is_stable_desc_order(keys, o2),
    ensures
        o1 == o2,
{
    lemma_prefix_agrees(keys, o1, o2, o1.len() as int);
    assert(o1 =~= o2);
}

/// Any stable descending order of `keys` is `stable_desc(keys)`.
pub proof fn lemma_stable_desc_is(keys: Seq<i128>, order: Seq<usize>)
    requires
        is_stable_desc_order(keys, order),
    ensures
        stable_desc(keys) == order,
        is_stable_desc_order(keys, stable_desc(keys)),
{
    lemma_stable_order_unique(keys, stable_desc(keys), order);
}

/// Where key `k` goes in `o` (searching from `t`): before the first index
/// with a smaller key.
spec fn insert_pos(keys: Seq<i128>, o: Seq<usize>, k: i128, t: int) -> int
    decreases o.len() - t,
{
    if t < 0 || t >= o.len() {
        o.len() as int
    } else if keys[o[t] as int] < k {
        t
    } else {
        insert_pos(keys, o, k, t + 1)
    }
}

proof fn lemma_insert_pos(keys: Seq<i128>, o: Seq<usize>, k: i128, t: int)
    requires
        0 <= t <= o.len(),
    ensures
        t <= insert_pos(keys, o, k, t) <= o.len(),
        forall|j: int| t <= j < insert_pos(keys, o, k, t) ==> keys[#[trigger] o[j] as int] >= k,
        insert_pos(keys, o, k, t) < o.len() ==> keys[o[insert_pos(keys, o, k, t)] as int] < k,
    decreases o.len() - t,
{
    if t < o.len() && keys[o[t] as int] >= k {
        lemma_insert_pos(keys, o, k, t + 1);
    }
}

/// The first `n` indices of `keys` have a stable descending order.
proof fn lemma_prefix_order_exists(keys: Seq<i128>, n: int) -> (o: Seq<usize>)
    requires
        0 <= n <= keys.len(),
        keys.len() <= usize::MAX,
    ensures
        is_stable_desc_prefix(keys, o, n),
    decreases n,
{
    if n == 0 {
        Seq::<usize>::empty()
    } else {
        let o0 = lemma_prefix_order_exists(keys, n - 1);
        let i = (n - 1) as usize;
        lemma_insert_pos(keys, o0, keys[n - 1], 0);
        let p = insert_pos(keys, o0, keys[n - 1], 0);
        lemma_insert_next(keys, o0, i, p);
        o0.insert(p, i)
    }
}

/// Every list of keys (of a length that `usize` indices can cover) has a
/// stable descending order.
pub proof fn lemma_stable_desc_exists(keys: Seq<i128>)
    requires
        keys.len() <= usize::MAX,
    ensures
        is_stable_desc_order(keys, stable_desc(keys)),
{
    let o = lemma_prefix_order_exists(keys, keys.len() as int);
    lemma_stable_desc_is(keys, o);
}

/// Along the stable descending order, keys never increase, and the first
/// index holds a largest key.
pub proof fn lemma_order_is_newest_first(keys: Seq<i128>)
    requires
        keys.len() <= usize::MAX,
    ensures
        forall|a: int, b: int|
            0 <= a < b < stable_desc(keys).len() ==> keys[#[trigger] stable_desc(keys)[a] as int]
                >= keys[#[trigger] stable_desc(keys)[b] as int],
        keys.len() > 0 ==> forall|k: int|
            0 <= k < keys.len() ==> keys[stable_desc(keys)[0] as int] >= #[trigger] keys[k],
{
    lemma_stable_desc_exists(keys);
    let order = stable_desc(keys);
    if order.len() > 0 {
        assert forall|k: int| 0 <= k < keys.len() implies keys[order[0] as int] >= #[trigger] keys[k] by {
            assert(order.contains(k as usize));
            let t = choose|t: int| 0 <= t < order.len() && order[t] == k as usize;
            if t > 0 {
                assert(precedes(keys, order[0] as int, order[t] as int));
            }
        }
    }
}

} // verus!
