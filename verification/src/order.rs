//! The order in which a stable descending sort visits its keys.

use vstd::prelude::*;
use vstd::set_lib::{set_int_range, lemma_int_range, lemma_len_subset, lemma_subset_equality};

verus! {

/// Whether position `a` comes before position `b` once `keys` is sorted in
/// descending order with ties kept as they stood: the larger key first, and
/// of two equal keys the one that stood first.
pub open spec fn precedes(keys: Seq<u64>, a: int, b: int) -> bool {
    keys[a] > keys[b] || (keys[a] == keys[b] && a < b)
}

/// Whether `order` lists the positions of `keys` in stable descending order:
/// it has one entry per key, every entry is a position of `keys`, and each
/// entry precedes all that follow it.
pub open spec fn is_stable_descending_order(order: Seq<usize>, keys: Seq<u64>) -> bool {
    &&& order.len() == keys.len()
    &&& forall|i: int| 0 <= i < order.len() ==> (#[trigger] order[i]) < keys.len()
    &&& forall|i: int, j: int|
        0 <= i < j < order.len() ==> precedes(keys, #[trigger] order[i] as int, #[trigger] order[j] as int)
}

/// The positions of `keys` in stable descending order. There is exactly one
/// such list for every sequence of keys: `stable_descending_order` computes
/// it, and `stable_descending_order_is_unique` shows that there is no other.
pub open spec fn stable_descending_order_of(keys: Seq<u64>) -> Seq<usize> {
    choose|order: Seq<usize>| is_stable_descending_order(order, keys)
}

/// Whether `p` is a permutation of the positions below its length: every
/// entry is such a position and no two entries are the same.
pub open spec fn is_permutation(p: Seq<usize>) -> bool {
    &&& forall|i: int| 0 <= i < p.len() ==> (#[trigger] p[i]) < p.len()
    &&& forall|i: int, j: int| 0 <= i < j < p.len() ==> p[i] != p[j]
}

/// A permutation leaves no position out: for every position `v` the result
/// is a place at which `p` holds `v`.
pub proof fn place_in_permutation(p: Seq<usize>, v: int) -> (m: int)
    requires
        is_permutation(p),
        0 <= v < p.len(),
    ensures
        0 <= m < p.len(),
        p[m] == v,
{
    let k = p.len() as int;
    let ints = p.map_values(|x: usize| x as int);
    assert forall|i: int, j: int| 0 <= i < ints.len() && 0 <= j < ints.len() && i != j implies ints[i]
        != ints[j] by {
        if i < j {
            assert(p[i] != p[j]);
        } else {
            assert(p[j] != p[i]);
        }
    }
    assert(ints.no_duplicates());
    ints.unique_seq_to_set();
    lemma_int_range(0, k);
    assert forall|w: int| ints.to_set().contains(w) implies set_int_range(0, k).contains(w) by {
        let m = choose|m: int| 0 <= m < ints.len() && ints[m] == w;
        assert(p[m] < p.len());
    }
    assert(ints.to_set().subset_of(set_int_range(0, k)));
    lemma_len_subset(ints.to_set(), set_int_range(0, k));
    lemma_subset_equality(ints.to_set(), set_int_range(0, k));
    assert(set_int_range(0, k).contains(v));
    assert(ints.to_set().contains(v));
    assert(ints.contains(v));
    let m = choose|m: int| 0 <= m < ints.len() && ints[m] == v;
    assert(p[m] == v);
    m
}

/// A stable descending order is a permutation of the positions of its keys:
/// it leaves none out and names none twice.
pub proof fn stable_descending_order_is_permutation(keys: Seq<u64>, order: Seq<usize>)
    requires
        is_stable_descending_order(order, keys),
    ensures
        is_permutation(order),
{
    assert forall|i: int, j: int| 0 <= i < j < order.len() implies order[i] != order[j] by {
        assert(precedes(keys, order[i] as int, order[j] as int));
    }
}

/// Two stable descending orders that agree below position `n` cannot differ
/// at `n` with the entry of the first preceding the entry of the second.
proof fn orders_cannot_fork(keys: Seq<u64>, a: Seq<usize>, b: Seq<usize>, n: int)
    requires
        is_stable_descending_order(a, keys),
        is_stable_descending_order(b, keys),
        0 <= n < keys.len(),
        forall|i: int| 0 <= i < n ==> a[i] == b[i],
    ensures
        !precedes(keys, a[n] as int, b[n] as int),
{
    if precedes(keys, a[n] as int, b[n] as int) {
        assert(a[n] < keys.len());
        stable_descending_order_is_permutation(keys, b);
        let m = place_in_permutation(b, a[n] as int);
        if m < n {
            assert(a[m] == b[m]);
            assert(precedes(keys, a[m] as int, a[n] as int));
        } else if m > n {
            assert(precedes(keys, b[n] as int, b[m] as int));
        }
    }
}

/// Two stable descending orders of the same keys agree on their first `n`
/// entries.
proof fn orders_agree_below(keys: Seq<u64>, a: Seq<usize>, b: Seq<usize>, n: int)
    requires
        is_stable_descending_order(a, keys),
        is_stable_descending_order(b, keys),
        0 <= n <= keys.len(),
    ensures
        forall|i: int| 0 <= i < n ==> a[i] == b[i],
    decreases n,
{
    if n > 0 {
        orders_agree_below(keys, a, b, n - 1);
        orders_cannot_fork(keys, a, b, n - 1);
        orders_cannot_fork(keys, b, a, n - 1);
        assert(a[n - 1] < keys.len() && b[n - 1] < keys.len());
    }
}

/// The stable descending order of a sequence of keys is unique: two lists
/// that both are one are the same list.
pub proof fn stable_descending_order_is_unique(keys: Seq<u64>, a: Seq<usize>, b: Seq<usize>)
    requires
        is_stable_descending_order(a, keys),
        is_stable_descending_order(b, keys),
    ensures
        a == b,
{
    orders_agree_below(keys, a, b, keys.len() as int);
    assert(a =~= b);
}

/// Along a stable descending order the keys never increase.
pub proof fn stable_descending_order_sorts(keys: Seq<u64>, order: Seq<usize>, i: int, j: int)
    requires
        is_stable_descending_order(order, keys),
        0 <= i <= j < order.len(),
    ensures
        keys[order[i] as int] >= keys[order[j] as int],
{
    if i < j {
        assert(precedes(keys, order[i] as int, order[j] as int));
    }
}

/// Lists the positions of `keys` in stable descending order: largest key
/// first, equal keys in the order in which they stand in `keys`.
pub fn stable_descending_order(keys: &Vec<u64>) -> (order: Vec<usize>)
    ensures
        is_stable_descending_order(order@, keys@),
        order@ == stable_descending_order_of(keys@),
{
    let mut order: Vec<usize> = Vec::new();
    let mut n: usize = 0;
    while n < keys.len()
        invariant
            n <= keys.len(),
            order.len() == n,
            forall|i: int| 0 <= i < n ==> (#[trigger] order[i]) < n,
            forall|i: int, j: int|
                0 <= i < j < n ==> precedes(keys@, #[trigger] order[i] as int, #[trigger] order[j] as int),
        decreases keys.len() - n,
    {
        let key = keys[n];
        let mut at: usize = 0;
        while at < n && keys[order[at]] >= key
            invariant
                n < keys.len(),
                order.len() == n,
                at <= n,
                key == keys[n as int],
                forall|i: int| 0 <= i < n ==> (#[trigger] order[i]) < n,
                forall|i: int| 0 <= i < at ==> keys[(#[trigger] order[i]) as int] >= key,
            decreases n - at,
        {
            at += 1;
        }
        let ghost before = order@;
        order.insert(at, n);
        proof {
            assert forall|i: int| 0 <= i < n + 1 implies (#[trigger] order[i]) < n + 1 by {
                if i < at {
                    assert(order[i] == before[i]);
                } else if i > at {
                    assert(order[i] == before[i - 1]);
                }
            }
            assert forall|i: int, j: int| 0 <= i < j < n + 1 implies precedes(
                keys@,
                #[trigger] order[i] as int,
                #[trigger] order[j] as int,
            ) by {
                if j < at {
                    assert(order[i] == before[i] && order[j] == before[j]);
                } else if j == at {
                    assert(order[i] == before[i]);
                    assert(keys[before[i] as int] >= key);
                } else if i == at {
                    assert(order[j] == before[j - 1]);
                    assert(keys[before[at as int] as int] < key);
                    if at < j - 1 {
                        assert(precedes(keys@, before[at as int] as int, before[j - 1] as int));
                    }
                } else if i > at {
                    assert(order[i] == before[i - 1] && order[j] == before[j - 1]);
                } else {
                    assert(order[i] == before[i] && order[j] == before[j - 1]);
                    if i < j - 1 {
                        assert(precedes(keys@, before[i] as int, before[j - 1] as int));
                    }
                }
            }
        }
        n += 1;
    }
    proof {
        assert(is_stable_descending_order(order@, keys@));
        stable_descending_order_is_unique(keys@, order@, stable_descending_order_of(keys@));
    }
    order
}

} // verus!
