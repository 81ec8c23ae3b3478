//! Stable ordering by keys.

use vstd::prelude::*;

verus! {

/// A key is smaller in its first part, or equal there and smaller in its
/// second.
pub open spec fn key_less(a: (u64, i64), b: (u64, i64)) -> bool {
    a.0 < b.0 || (a.0 == b.0 && a.1 < b.1)
}

/// The `i`-th item comes before the `j`-th: by its key, or by its place where
/// the keys are equal.
pub open spec fn precedes(keys: Seq<(u64, i64)>, i: int, j: int) -> bool {
    key_less(keys[i], keys[j]) || (keys[i] == keys[j] && i < j)
}

/// `order` lists every place of `keys` once, each before those it precedes.
pub open spec fn in_order(keys: Seq<(u64, i64)>, order: Seq<usize>) -> bool {
    &&& order.len() == keys.len()
    &&& forall|a: int| 0 <= a < order.len() ==> #[trigger] order[a] < keys.len()
    &&& forall|a: int, b: int|
        0 <= a < b < order.len() ==> precedes(
            keys,
            #[trigger] order[a] as int,
            #[trigger] order[b] as int,
        )
}

/// The places of `keys` in stable order.
pub fn stable_order(keys: &Vec<(u64, i64)>) -> (order: Vec<usize>)
    ensures
        in_order(keys@, order@),
{
    let mut order: Vec<usize> = Vec::new();
    let mut i: usize = 0;
    while i < keys.len()
        invariant
            i <= keys@.len(),
            order@.len() == i,
            forall|a: int| 0 <= a < order@.len() ==> #[trigger] order@[a] < i,
            forall|a: int, b: int|
                0 <= a < b < order@.len() ==> precedes(
                    keys@,
                    #[trigger] order@[a] as int,
                    #[trigger] order@[b] as int,
                ),
        decreases keys.len() - i,
    {
        let k = keys[i];
        let mut p: usize = order.len();
        while p > 0 && (k.0 < keys[order[p - 1]].0 || (k.0 == keys[order[p - 1]].0 && k.1
            < keys[order[p - 1]].1))
            invariant
                p <= order@.len(),
                i < keys@.len(),
                k == keys@[i as int],
                forall|a: int| 0 <= a < order@.len() ==> #[trigger] order@[a] < i,
                forall|a: int|
                    p <= a < order@.len() ==> key_less(k, keys@[#[trigger] order@[a] as int]),
            decreases p,
        {
            p = p - 1;
        }
        let ghost before = order@;
        order.insert(p, i);
        proof {
            assert(forall|a: int| 0 <= a < p ==> order@[a] == before[a]);
            assert(order@[p as int] == i);
            assert(forall|a: int| p < a < order@.len() ==> order@[a] == before[a - 1]);
            assert forall|a: int, b: int| 0 <= a < b < order@.len() implies precedes(
                keys@,
                #[trigger] order@[a] as int,
                #[trigger] order@[b] as int,
            ) by {
                if b == p {
                    assert(order@[a] == before[a]);
                    assert(!key_less(k, keys@[before[p - 1] as int]));
                    if a < p - 1 {
                        assert(precedes(keys@, before[a] as int, before[p - 1] as int));
                    }
                } else if a == p {
                    assert(order@[b] == before[b - 1]);
                } else {
                    let x = if a < p {
                        a
                    } else {
                        a - 1
                    };
                    let y = if b < p {
                        b
                    } else {
                        b - 1
                    };
                    assert(precedes(keys@, before[x] as int, before[y] as int));
                }
            }
        }
        i = i + 1;
    }
    order
}

} // verus!
