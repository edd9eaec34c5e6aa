//! Stable ordering.

use vstd::prelude::*;

verus! {

/// Whether position `a` comes before position `b` when positions are ordered
/// by their keys, and those with equal keys as they stand.
pub open spec fn comes_first(keys: Seq<i64>, a: int, b: int) -> bool {
    keys[a] < keys[b] || (keys[a] == keys[b] && a < b)
}

/// Whether `perm` holds every position of `keys` once, in order.
pub open spec fn is_stable_order(perm: Seq<usize>, keys: Seq<i64>) -> bool {
    &&& perm.len() == keys.len()
    &&& forall|i: int| 0 <= i < perm.len() ==> 0 <= #[trigger] perm[i] < keys.len()
    &&& forall|i: int, j: int|
        0 <= i < j < perm.len() ==> comes_first(
            keys,
            #[trigger] perm[i] as int,
            #[trigger] perm[j] as int,
        )
}

/// The positions of `keys`, ordered by their keys, equal ones as they stand.
pub fn stable_order(keys: &Vec<i64>) -> (perm: Vec<usize>)
    ensures
        is_stable_order(perm@, keys@),
{
    let mut perm: Vec<usize> = Vec::new();
    let mut i: usize = 0;
    while i < keys.len()
        invariant
            i <= keys@.len(),
            perm@.len() == i,
            forall|a: int| 0 <= a < perm@.len() ==> 0 <= #[trigger] perm@[a] < i,
            forall|a: int, b: int|
                0 <= a < b < perm@.len() ==> comes_first(
                    keys@,
                    #[trigger] perm@[a] as int,
                    #[trigger] perm@[b] as int,
                ),
        decreases keys@.len() - i,
    {
        let mut at: usize = perm.len();
        while at > 0 && keys[perm[at - 1]] > keys[i]
            invariant
                at <= perm@.len(),
                i < keys@.len(),
                forall|a: int| 0 <= a < perm@.len() ==> 0 <= #[trigger] perm@[a] < i,
                forall|a: int|
                    at <= a < perm@.len() ==> keys@[#[trigger] perm@[a] as int] > keys@[i as int],
            decreases at,
        {
            at = at - 1;
        }
        let ghost old_perm = perm@;
        perm.insert(at, i);
        proof {
            assert forall|a: int, b: int| 0 <= a < b < perm@.len() implies comes_first(
                keys@,
                #[trigger] perm@[a] as int,
                #[trigger] perm@[b] as int,
            ) by {
                let oa = if a < at {
                    a
                } else {
                    a - 1
                };
                let ob = if b < at {
                    b
                } else {
                    b - 1
                };
                if a != at && b != at {
                    assert(perm@[a] == old_perm[oa] && perm@[b] == old_perm[ob]);
                } else if b == at {
                    assert(perm@[a] == old_perm[a]);
                    if a < at - 1 {
                        assert(comes_first(
                            keys@,
                            old_perm[a] as int,
                            old_perm[at - 1] as int,
                        ));
                    }
                } else {
                    assert(perm@[b] == old_perm[b - 1]);
                }
            }
            assert forall|a: int| 0 <= a < perm@.len() implies 0 <= #[trigger] perm@[a] < i
                + 1 by {
                if a < at {
                    assert(perm@[a] == old_perm[a]);
                } else if a > at {
                    assert(perm@[a] == old_perm[a - 1]);
                }
            }
        }
        i = i + 1;
    }
    perm
}

/// There is one stable order: two orders agree at every place.
pub proof fn stable_order_is_unique(p: Seq<usize>, q: Seq<usize>, keys: Seq<i64>)
    requires
        is_stable_order(p, keys),
        is_stable_order(q, keys),
    ensures
        p == q,
{
    assert forall|i: int| 0 <= i < p.len() implies p[i] == q[i] by {
        agree_up_to(p, q, keys, i + 1);
    }
    assert(p =~= q);
}

/// Every position occurs in a stable order.
pub proof fn every_position_occurs(p: Seq<usize>, keys: Seq<i64>, x: usize)
    requires
        is_stable_order(p, keys),
        x < keys.len(),
    ensures
        p.contains(x),
{
    let n = keys.len();
    let used = p.to_set();
    assert forall|i: int, j: int| 0 <= i < p.len() && 0 <= j < p.len() && i != j implies p[i]
        != p[j] by {
        if i < j {
            assert(comes_first(keys, p[i] as int, p[j] as int));
        } else {
            assert(comes_first(keys, p[j] as int, p[i] as int));
        }
    }
    assert(p.no_duplicates());
    p.unique_seq_to_set();
    let ints = vstd::set_lib::set_int_range(0, n as int);
    vstd::set_lib::lemma_int_range(0, n as int);
    let images = used.map(|k: usize| k as int);
    assert(vstd::relations::injective_on(|k: usize| k as int, used));
    vstd::set_lib::lemma_map_size(used, images, |k: usize| k as int);
    assert(images.subset_of(ints)) by {
        assert forall|v: int| images.contains(v) implies ints.contains(v) by {
            let k = choose|k: usize| used.contains(k) && k as int == v;
            let i = choose|i: int| 0 <= i < p.len() && p[i] == k;
            assert(p[i] < keys.len());
        }
    }
    vstd::set_lib::lemma_len_subset(images, ints);
    vstd::set_lib::lemma_subset_equality(images, ints);
    assert(images.contains(x as int));
    let k = choose|k: usize| used.contains(k) && k as int == x as int;
    assert(k == x);
}

/// Taking the items at every position once, in whatever order, neither loses
/// nor repeats one.
proof fn same_items<T>(perm: Seq<usize>, items: Seq<T>)
    requires
        perm.len() == items.len(),
        forall|i: int| 0 <= i < perm.len() ==> #[trigger] perm[i] < items.len(),
        perm.no_duplicates(),
        forall|x: int| 0 <= x < items.len() ==> #[trigger] perm.contains(x as usize),
        items.len() <= usize::MAX,
    ensures
        Seq::new(items.len(), |i: int| items[perm[i] as int]).to_multiset() == items.to_multiset(),
    decreases items.len(),
{
    broadcast use vstd::seq_lib::group_to_multiset_ensures;

    let taken = Seq::new(items.len(), |i: int| items[perm[i] as int]);
    if items.len() == 0 {
        assert(taken =~= items);
    } else {
        let last = items.len() - 1;
        assert(perm.contains(last as usize));
        let j = choose|j: int| 0 <= j < perm.len() && perm[j] == last as usize;
        let init = items.drop_last();
        let rest = perm.remove(j);
        assert forall|i: int| 0 <= i < rest.len() implies #[trigger] rest[i] < init.len() by {
            let o = if i < j {
                i
            } else {
                i + 1
            };
            assert(rest[i] == perm[o]);
            assert(perm[o] != perm[j]);
        }
        assert(rest.no_duplicates());
        assert forall|x: int| 0 <= x < init.len() implies #[trigger] rest.contains(x as usize) by {
            assert(perm.contains(x as usize));
            let o = choose|o: int| 0 <= o < perm.len() && perm[o] == x as usize;
            let i = if o < j {
                o
            } else {
                o - 1
            };
            assert(rest[i] == x as usize);
        }
        same_items(rest, init);
        let left = Seq::new(init.len(), |i: int| init[rest[i] as int]);
        assert(taken.remove(j) =~= left);
        assert(taken =~= left.insert(j, items.last()));
        assert(taken.to_multiset() =~= left.to_multiset().insert(items.last()));
        assert(items =~= init.push(items.last()));
    }
}

/// Items in a stable order of their keys are the same items.
pub proof fn ordered_items_stay<T>(perm: Seq<usize>, keys: Seq<i64>, items: Seq<T>)
    requires
        is_stable_order(perm, keys),
        items.len() == keys.len(),
        keys.len() <= usize::MAX,
    ensures
        Seq::new(items.len(), |i: int| items[perm[i] as int]).to_multiset() == items.to_multiset(),
{
    assert forall|i: int, j: int|
        0 <= i < perm.len() && 0 <= j < perm.len() && i != j implies perm[i] != perm[j] by {
        if i < j {
            assert(comes_first(keys, perm[i] as int, perm[j] as int));
        } else {
            assert(comes_first(keys, perm[j] as int, perm[i] as int));
        }
    }
    assert forall|x: int| 0 <= x < items.len() implies #[trigger] perm.contains(x as usize) by {
        every_position_occurs(perm, keys, x as usize);
    }
    same_items(perm, items);
}

/// Two stable orders agree on their first `n` places.
proof fn agree_up_to(p: Seq<usize>, q: Seq<usize>, keys: Seq<i64>, n: int)
    requires
        is_stable_order(p, keys),
        is_stable_order(q, keys),
        0 <= n <= p.len(),
    ensures
        forall|i: int| 0 <= i < n ==> p[i] == q[i],
    decreases n,
{
    if n > 0 {
        agree_up_to(p, q, keys, n - 1);
        let i = n - 1;
        if p[i] != q[i] {
            every_position_occurs(q, keys, p[i]);
            every_position_occurs(p, keys, q[i]);
            let j = choose|j: int| 0 <= j < q.len() && q[j] == p[i];
            let k = choose|k: int| 0 <= k < p.len() && p[k] == q[i];
            if j < i {
                assert(p[j] == q[j]);
                assert(comes_first(keys, p[j] as int, p[i] as int));
            } else if k < i {
                assert(p[k] == q[k]);
                assert(comes_first(keys, q[k] as int, q[i] as int));
            } else {
                assert(comes_first(keys, q[i] as int, q[j] as int));
                assert(comes_first(keys, p[i] as int, p[k] as int));
            }
        }
    }
}

/// In a stable order keys do not fall, and positions with equal keys rise.
pub proof fn stable_order_sorts(perm: Seq<usize>, keys: Seq<i64>, i: int, j: int)
    requires
        is_stable_order(perm, keys),
        0 <= i < j < perm.len(),
    ensures
        keys[perm[i] as int] <= keys[perm[j] as int],
        keys[perm[i] as int] == keys[perm[j] as int] ==> perm[i] < perm[j],
        perm.len() == keys.len(),
{
    assert(comes_first(keys, perm[i] as int, perm[j] as int));
}

} // verus!
