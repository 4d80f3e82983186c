//! Putting frames in the order of their numbers.
//!
//! Frames are listed in whatever order a directory hands them out. Before
//! anything walks them they are put in ascending order of their number;
//! frames with the same number keep the order in which they were listed.

use vstd::prelude::*;

verus! {

/// Where a new key `k` goes into `order`, a list of places in `keys` that is
/// in ascending order of key: behind the last place whose key is not above
/// `k`.
pub open spec fn insertion_point(order: Seq<usize>, keys: Seq<usize>, k: usize) -> int
    decreases order.len(),
{
    if order.len() == 0 {
        0
    } else if keys[order.last() as int] <= k {
        order.len() as int
    } else {
        insertion_point(order.drop_last(), keys, k)
    }
}

/// The places `0..keys.len()` in ascending order of their key, places with
/// one key in ascending order of place.
pub open spec fn stable_order(keys: Seq<usize>) -> Seq<usize>
    decreases keys.len(),
{
    if keys.len() == 0 {
        Seq::empty()
    } else {
        let before = stable_order(keys.drop_last());
        before.insert(
            insertion_point(before, keys, keys.last()),
            (keys.len() - 1) as usize,
        )
    }
}

/// `order` lists each place of `keys` once, in strictly ascending order of
/// key and place.
pub open spec fn is_stable_order(keys: Seq<usize>, order: Seq<usize>) -> bool {
    &&& order.len() == keys.len()
    &&& forall|i: int| 0 <= i < order.len() ==> (#[trigger] order[i]) < keys.len()
    &&& forall|i: int, j: int|
        0 <= i < j < order.len() ==> {
            let a = #[trigger] order[i] as int;
            let b = #[trigger] order[j] as int;
            keys[a] < keys[b] || (keys[a] == keys[b] && a < b)
        }
}

/// `items` taken in the given order.
pub open spec fn arranged<T>(items: Seq<T>, order: Seq<usize>) -> Seq<T> {
    Seq::new(order.len(), |i: int| items[order[i] as int])
}

/// The insertion point splits an ascending list: before it stand the keys
/// that are not above `k`, from it on those that are.
pub proof fn lemma_insertion_point_splits(order: Seq<usize>, keys: Seq<usize>, k: usize)
    requires
        forall|i: int| 0 <= i < order.len() ==> (#[trigger] order[i]) < keys.len(),
        forall|i: int, j: int|
            0 <= i < j < order.len() ==> keys[#[trigger] order[i] as int] <= keys[#[trigger] order[j] as int],
    ensures
        0 <= insertion_point(order, keys, k) <= order.len(),
        forall|i: int|
            0 <= i < insertion_point(order, keys, k) ==> keys[#[trigger] order[i] as int] <= k,
        forall|i: int|
            insertion_point(order, keys, k) <= i < order.len() ==> keys[#[trigger] order[i] as int]
                > k,
    decreases order.len(),
{
    if order.len() > 0 {
        let last = order.len() - 1;
        if keys[order.last() as int] <= k {
            assert forall|i: int| 0 <= i < order.len() implies keys[#[trigger] order[i] as int]
                <= k by {
                if i < last {
                    assert(keys[order[i] as int] <= keys[order[last] as int]);
                }
            }
        } else {
            let front = order.drop_last();
            assert forall|i: int, j: int| 0 <= i < j < front.len() implies keys[#[trigger] front[i] as int]
                <= keys[#[trigger] front[j] as int] by {
                assert(front[i] == order[i] && front[j] == order[j]);
            }
            lemma_insertion_point_splits(front, keys, k);
            let p = insertion_point(front, keys, k);
            assert forall|i: int| 0 <= i < p implies keys[#[trigger] order[i] as int] <= k by {
                assert(front[i] == order[i]);
            }
            assert forall|i: int| p <= i < order.len() implies keys[#[trigger] order[i] as int]
                > k by {
                if i < last {
                    assert(front[i] == order[i]);
                }
            }
        }
    }
}

/// The insertion point looks at the keys of the listed places only.
pub proof fn lemma_insertion_point_reads_listed_keys(
    order: Seq<usize>,
    keys: Seq<usize>,
    other: Seq<usize>,
    k: usize,
)
    requires
        forall|i: int|
            0 <= i < order.len() ==> keys[#[trigger] order[i] as int] == other[order[i] as int],
    ensures
        insertion_point(order, keys, k) == insertion_point(order, other, k),
    decreases order.len(),
{
    if order.len() > 0 {
        assert(keys[order.last() as int] == other[order.last() as int]);
        if keys[order.last() as int] > k {
            let front = order.drop_last();
            assert forall|i: int| 0 <= i < front.len() implies keys[#[trigger] front[i] as int]
                == other[front[i] as int] by {
                assert(front[i] == order[i]);
            }
            lemma_insertion_point_reads_listed_keys(front, keys, other, k);
        }
    }
}

/// The order that `stable_order` gives is the one ascending arrangement of
/// all places by key and place.
pub proof fn lemma_stable_order_is_stable(keys: Seq<usize>)
    requires
        keys.len() <= usize::MAX,
    ensures
        is_stable_order(keys, stable_order(keys)),
    decreases keys.len(),
{
    if keys.len() > 0 {
        let front_keys = keys.drop_last();
        let before = stable_order(front_keys);
        lemma_stable_order_is_stable(front_keys);
        let k = keys.last();
        let n = (keys.len() - 1) as usize;
        assert forall|i: int| 0 <= i < before.len() implies keys[#[trigger] before[i] as int]
            == front_keys[before[i] as int] by {}
        assert forall|i: int, j: int| 0 <= i < j < before.len() implies keys[#[trigger] before[i] as int]
            <= keys[#[trigger] before[j] as int] by {
            assert(front_keys[before[i] as int] <= front_keys[before[j] as int]);
        }
        assert forall|i: int| 0 <= i < before.len() implies (#[trigger] before[i])
            < keys.len() by {}
        lemma_insertion_point_splits(before, keys, k);
        let p = insertion_point(before, keys, k);
        let order = before.insert(p, n);
        assert(order == stable_order(keys));
        assert forall|i: int| 0 <= i < order.len() implies (#[trigger] order[i]) < keys.len() by {
            if i < p {
                assert(order[i] == before[i]);
            } else if i > p {
                assert(order[i] == before[i - 1]);
            }
        }
        assert forall|i: int, j: int| 0 <= i < j < order.len() implies {
            let a = #[trigger] order[i] as int;
            let b = #[trigger] order[j] as int;
            keys[a] < keys[b] || (keys[a] == keys[b] && a < b)
        } by {
            let a = order[i] as int;
            let b = order[j] as int;
            if j < p {
                assert(order[i] == before[i] && order[j] == before[j]);
                assert(front_keys[a] == keys[a] && front_keys[b] == keys[b]);
            } else if j == p {
                assert(order[i] == before[i]);
                assert(keys[before[i] as int] <= k);
                assert(before[i] < front_keys.len());
            } else if i < p {
                assert(order[i] == before[i] && order[j] == before[j - 1]);
                assert(front_keys[a] == keys[a] && front_keys[b] == keys[b]);
            } else if i == p {
                assert(order[j] == before[j - 1]);
                assert(keys[before[j - 1] as int] > k);
            } else {
                assert(order[i] == before[i - 1] && order[j] == before[j - 1]);
                assert(front_keys[a] == keys[a] && front_keys[b] == keys[b]);
            }
        }
    }
}

/// The places of `keys` in ascending order of key; places with one key stay
/// in ascending order of place.
pub fn order_by_key(keys: &Vec<usize>) -> (order: Vec<usize>)
    ensures
        order@ == stable_order(keys@),
        is_stable_order(keys@, order@),
{
    let n = keys.len();
    let mut order: Vec<usize> = Vec::new();
    let mut j: usize = 0;
    while j < n
        invariant
            n == keys@.len(),
            0 <= j <= n,
            order@ == stable_order(keys@.take(j as int)),
            order@.len() == j,
            forall|i: int| 0 <= i < order@.len() ==> (#[trigger] order@[i]) < j,
        decreases n - j,
    {
        let k = keys[j];
        let ghost before = order@;
        let ghost front = keys@.take(j + 1);
        let mut p: usize = order.len();
        proof {
            assert(before.take(p as int) =~= before);
        }
        while p > 0 && keys[order[p - 1]] > k
            invariant
                n == keys@.len(),
                j < n,
                k == keys@[j as int],
                before == order@,
                0 <= p <= order@.len(),
                forall|i: int| 0 <= i < order@.len() ==> (#[trigger] order@[i]) < j,
                insertion_point(before, keys@, k) == insertion_point(
                    before.take(p as int),
                    keys@,
                    k,
                ),
            decreases p,
        {
            proof {
                assert(before.take(p as int).drop_last() =~= before.take(p - 1));
                assert(before.take(p as int).last() == before[p - 1]);
            }
            p = p - 1;
        }
        proof {
            if p > 0 {
                assert(before.take(p as int).last() == before[p - 1]);
            }
            assert(insertion_point(before, keys@, k) == p);
            assert(front.drop_last() =~= keys@.take(j as int));
            assert(front.last() == k);
            assert forall|i: int| 0 <= i < before.len() implies keys@[#[trigger] before[i] as int]
                == front[before[i] as int] by {}
            lemma_insertion_point_reads_listed_keys(before, keys@, front, k);
        }
        order.insert(p, j);
        proof {
            assert(order@ == stable_order(front));
            assert forall|i: int| 0 <= i < order@.len() implies (#[trigger] order@[i]) < j + 1 by {
                if i < p {
                    assert(order@[i] == before[i]);
                } else if i > p {
                    assert(order@[i] == before[i - 1]);
                }
            }
        }
        j = j + 1;
    }
    proof {
        assert(keys@.take(n as int) =~= keys@);
        lemma_stable_order_is_stable(keys@);
    }
    order
}

} // verus!
