//! Orderings of rows by descending keys.
use vstd::prelude::*;

verus! {

/// Whether a row with key `left` comes before one with key `right`.
pub open spec fn ahead(left: (i64, i64), right: (i64, i64)) -> bool {
    left.0 > right.0 || (left.0 == right.0 && left.1 > right.1)
}

/// `order` with index `n` put behind every index that it is not ahead of.
pub open spec fn placed(order: Seq<int>, keys: Seq<(i64, i64)>, n: int) -> Seq<int>
    decreases order.len(),
{
    if order.len() == 0 || !ahead(keys[n], keys[order.last()]) {
        order.push(n)
    } else {
        placed(order.drop_last(), keys, n).push(order.last())
    }
}

/// The first `n` indices by descending key; equal keys keep their order.
pub open spec fn ranked(keys: Seq<(i64, i64)>, n: nat) -> Seq<int>
    decreases n,
{
    if n == 0 {
        Seq::empty()
    } else {
        placed(ranked(keys, (n - 1) as nat), keys, n - 1)
    }
}

/// The indices of a list by descending key.
pub open spec fn ranking(keys: Seq<(i64, i64)>) -> Seq<int> {
    ranked(keys, keys.len())
}

/// The rows that `order` picks.
pub open spec fn picked<T>(rows: Seq<T>, order: Seq<int>) -> Seq<T> {
    Seq::new(order.len(), |i: int| rows[order[i]])
}

/// Whether index `i` comes before index `j` in a ranking.
pub open spec fn before(keys: Seq<(i64, i64)>, i: int, j: int) -> bool {
    ahead(keys[i], keys[j]) || (!ahead(keys[j], keys[i]) && i < j)
}

/// The indices of a list of machine integers.
pub open spec fn indices(order: Seq<usize>) -> Seq<int> {
    Seq::new(order.len(), |i: int| order[i] as int)
}

proof fn lemma_placed(order: Seq<int>, keys: Seq<(i64, i64)>, n: int)
    requires
        0 <= n < keys.len(),
        forall|i: int| 0 <= i < order.len() ==> 0 <= #[trigger] order[i] < n,
        forall|i: int, j: int|
            0 <= i < j < order.len() ==> before(keys, #[trigger] order[i], #[trigger] order[j]),
    ensures
        ({
            let result = placed(order, keys, n);
            &&& result.len() == order.len() + 1
            &&& forall|i: int| 0 <= i < result.len() ==> 0 <= #[trigger] result[i] <= n
            &&& forall|i: int| 0 <= i < order.len() ==> result.contains(#[trigger] order[i])
            &&& result.contains(n)
            &&& forall|i: int|
                0 <= i < result.len() ==> (#[trigger] result[i]) == n || order.contains(result[i])
            &&& forall|i: int, j: int|
                0 <= i < j < result.len() ==> before(
                    keys,
                    #[trigger] result[i],
                    #[trigger] result[j],
                )
        }),
    decreases order.len(),
{
    let result = placed(order, keys, n);
    if order.len() == 0 || !ahead(keys[n], keys[order.last()]) {
        assert(result[order.len() as int] == n);
        assert forall|i: int| 0 <= i < order.len() implies result.contains(#[trigger] order[i]) by {
            assert(result[i] == order[i]);
        }
        assert forall|i: int| 0 <= i < result.len() implies (#[trigger] result[i]) == n
            || order.contains(result[i]) by {
            if i < order.len() {
                assert(order[i] == result[i]);
            }
        }
        assert forall|i: int, j: int| 0 <= i < j < result.len() implies before(
            keys,
            #[trigger] result[i],
            #[trigger] result[j],
        ) by {
            if j == order.len() {
                let last = order.len() - 1;
                if i < last {
                    assert(before(keys, order[i], order[last]));
                }
            } else {
                assert(result[i] == order[i] && result[j] == order[j]);
            }
        }
    } else {
        let rest = order.drop_last();
        assert forall|i: int, j: int| 0 <= i < j < rest.len() implies before(
            keys,
            #[trigger] rest[i],
            #[trigger] rest[j],
        ) by {
            assert(rest[i] == order[i] && rest[j] == order[j]);
        }
        assert forall|i: int| 0 <= i < rest.len() implies 0 <= #[trigger] rest[i] < n by {
            assert(rest[i] == order[i]);
        }
        lemma_placed(rest, keys, n);
        let inner = placed(rest, keys, n);
        let last = order.last();
        assert(result =~= inner.push(last));
        assert(result[inner.len() as int] == last);
        assert forall|i: int| 0 <= i < order.len() implies result.contains(#[trigger] order[i]) by {
            if i < rest.len() {
                assert(rest[i] == order[i]);
                let k = choose|k: int| 0 <= k < inner.len() && inner[k] == rest[i];
                assert(result[k] == order[i]);
            } else {
                assert(result[inner.len() as int] == order[i]);
            }
        }
        let k = choose|k: int| 0 <= k < inner.len() && inner[k] == n;
        assert(result[k] == n);
        assert forall|i: int| 0 <= i < result.len() implies (#[trigger] result[i]) == n
            || order.contains(result[i]) by {
            if i < inner.len() {
                assert(result[i] == inner[i]);
                if inner[i] != n {
                    let m = choose|m: int| 0 <= m < rest.len() && rest[m] == inner[i];
                    assert(order[m] == inner[i]);
                }
            } else {
                assert(order[order.len() - 1] == result[i]);
            }
        }
        assert forall|i: int, j: int| 0 <= i < j < result.len() implies before(
            keys,
            #[trigger] result[i],
            #[trigger] result[j],
        ) by {
            if j < inner.len() {
                assert(result[i] == inner[i] && result[j] == inner[j]);
            } else {
                assert(result[i] == inner[i]);
                if inner[i] != n {
                    let m = choose|m: int| 0 <= m < rest.len() && rest[m] == inner[i];
                    assert(before(keys, order[m], order[order.len() - 1]));
                }
            }
        }
    }
}

/// A ranking holds every index once, and of two indices the one with the
/// greater key comes first, or the smaller index where the keys are equal.
pub proof fn lemma_ranked(keys: Seq<(i64, i64)>, n: nat)
    requires
        n <= keys.len(),
    ensures
        ranked(keys, n).len() == n,
        forall|i: int| 0 <= i < n ==> 0 <= #[trigger] ranked(keys, n)[i] < n,
        forall|i: int| 0 <= i < n ==> #[trigger] ranked(keys, n).contains(i),
        forall|i: int, j: int|
            0 <= i < j < n ==> before(
                keys,
                #[trigger] ranked(keys, n)[i],
                #[trigger] ranked(keys, n)[j],
            ),
    decreases n,
{
    if n > 0 {
        let m = (n - 1) as nat;
        lemma_ranked(keys, m);
        let order = ranked(keys, m);
        lemma_placed(order, keys, m as int);
        let result = ranked(keys, n);
        assert forall|i: int| 0 <= i < n implies #[trigger] result.contains(i) by {
            if i < m {
                assert(order.contains(i));
                let k = choose|k: int| 0 <= k < order.len() && order[k] == i;
                assert(result.contains(order[k]));
            }
        }
    }
}

fn place(order: &mut Vec<usize>, keys: &Vec<(i64, i64)>, n: usize)
    requires
        n < keys@.len(),
        forall|i: int| 0 <= i < old(order)@.len() ==> #[trigger] old(order)@[i] < n,
    ensures
        indices(final(order)@) == placed(indices(old(order)@), keys@, n as int),
        forall|i: int| 0 <= i < final(order)@.len() ==> #[trigger] final(order)@[i] <= n,
{
    let ghost start = indices(order@);
    let mut at: usize = order.len();
    while at > 0 && (keys[n].0 > keys[order[at - 1]].0 || (keys[n].0 == keys[order[at - 1]].0
        && keys[n].1 > keys[order[at - 1]].1))
        invariant
            at <= order@.len(),
            n < keys@.len(),
            start == indices(order@),
            forall|i: int| 0 <= i < order@.len() ==> #[trigger] order@[i] < n,
            forall|j: int|
                at <= j < start.len() ==> ahead(keys@[n as int], keys@[#[trigger] start[j]]),
        decreases at,
    {
        at -= 1;
    }
    proof {
        lemma_placed_at(start, keys@, n as int, at as int);
    }
    order.insert(at, n);
    assert(indices(order@) =~= start.insert(at as int, n as int));
}

proof fn lemma_placed_at(order: Seq<int>, keys: Seq<(i64, i64)>, n: int, at: int)
    requires
        0 <= at <= order.len(),
        forall|j: int| at <= j < order.len() ==> ahead(keys[n], keys[#[trigger] order[j]]),
        at == 0 || !ahead(keys[n], keys[order[at - 1]]),
    ensures
        placed(order, keys, n) == order.insert(at, n),
    decreases order.len(),
{
    if at == order.len() {
        assert(order.insert(at, n) =~= order.push(n));
    } else {
        let rest = order.drop_last();
        assert forall|j: int| at <= j < rest.len() implies ahead(
            keys[n],
            keys[#[trigger] rest[j]],
        ) by {
            assert(rest[j] == order[j]);
        }
        lemma_placed_at(rest, keys, n, at);
        assert(ahead(keys[n], keys[order[order.len() - 1]]));
        assert(rest.insert(at, n).push(order.last()) =~= order.insert(at, n));
    }
}

/// The indices of `keys` by descending key; equal keys keep their order.
pub fn rank(keys: &Vec<(i64, i64)>) -> (result: Vec<usize>)
    ensures
        indices(result@) == ranking(keys@),
        result@.len() == keys@.len(),
        forall|i: int| 0 <= i < result@.len() ==> #[trigger] result@[i] < keys@.len(),
{
    let mut order: Vec<usize> = Vec::new();
    assert(indices(order@) =~= ranked(keys@, 0));
    for n in 0..keys.len()
        invariant
            indices(order@) == ranked(keys@, n as nat),
            forall|i: int| 0 <= i < order@.len() ==> #[trigger] order@[i] < n,
    {
        place(&mut order, keys, n);
    }
    proof {
        lemma_ranked(keys@, keys@.len());
        assert(indices(order@).len() == order@.len());
    }
    order
}

} // verus!
