//! Ascending order of keys, as a list of positions.

use vstd::prelude::*;

verus! {

/// `order` with the position `p` put in behind every position whose key is not greater.
pub open spec fn placed(order: Seq<int>, keys: Seq<int>, p: int) -> Seq<int>
    decreases order.len(),
{
    if order.len() == 0 || keys[order.last()] <= keys[p] {
        order.push(p)
    } else {
        placed(order.drop_last(), keys, p).push(order.last())
    }
}

/// The first `n` positions in ascending order of their keys; equal keys keep the order
/// of their positions.
pub open spec fn ascending_upto(keys: Seq<int>, n: nat) -> Seq<int>
    decreases n,
{
    if n == 0 {
        seq![]
    } else {
        placed(ascending_upto(keys, (n - 1) as nat), keys, n - 1)
    }
}

/// All positions in ascending order of their keys.
pub open spec fn ascending(keys: Seq<int>) -> Seq<int> {
    ascending_upto(keys, keys.len())
}

/// The numbers that a list of machine integers stands for.
pub open spec fn numbers(keys: Seq<i64>) -> Seq<int> {
    Seq::new(keys.len(), |i: int| keys[i] as int)
}

/// The numbers that a list of positions stands for.
pub open spec fn positions(order: Seq<usize>) -> Seq<int> {
    Seq::new(order.len(), |i: int| order[i] as int)
}

proof fn lemma_placed(order: Seq<int>, keys: Seq<int>, p: int)
    ensures
        placed(order, keys, p).len() == order.len() + 1,
        placed(order, keys, p).to_multiset() =~= order.to_multiset().insert(p),
        forall|i: int| 0 <= i < placed(order, keys, p).len() ==> (#[trigger] placed(order, keys, p)[i]
            == p || order.contains(placed(order, keys, p)[i])),
    decreases order.len(),
{
    broadcast use vstd::seq_lib::group_to_multiset_ensures;

    let r = placed(order, keys, p);
    if order.len() == 0 || keys[order.last()] <= keys[p] {
        assert forall|i: int| 0 <= i < r.len() implies (#[trigger] r[i] == p || order.contains(
            r[i],
        )) by {
            if i < order.len() {
                assert(order[i] == r[i]);
            }
        }
    } else {
        let front = order.drop_last();
        lemma_placed(front, keys, p);
        let q = placed(front, keys, p);
        assert(order =~= front.push(order.last()));
        assert forall|i: int| 0 <= i < r.len() implies (#[trigger] r[i] == p || order.contains(
            r[i],
        )) by {
            if i < q.len() {
                assert(r[i] == q[i]);
                if q[i] != p {
                    let j = choose|j: int| 0 <= j < front.len() && front[j] == q[i];
                    assert(order[j] == q[i]);
                }
            } else {
                assert(order[order.len() - 1] == r[i]);
            }
        }
    }
}

/// Whether the keys at these positions ascend.
pub open spec fn keys_ascend(order: Seq<int>, keys: Seq<int>) -> bool {
    forall|i: int, j: int|
        0 <= i < j < order.len() ==> keys[#[trigger] order[i]] <= keys[#[trigger] order[j]]
}

proof fn lemma_placed_ascends(order: Seq<int>, keys: Seq<int>, p: int)
    requires
        keys_ascend(order, keys),
    ensures
        keys_ascend(placed(order, keys, p), keys),
    decreases order.len(),
{
    let r = placed(order, keys, p);
    if order.len() == 0 || keys[order.last()] <= keys[p] {
        assert forall|i: int, j: int| 0 <= i < j < r.len() implies keys[#[trigger] r[i]]
            <= keys[#[trigger] r[j]] by {
            if j == order.len() {
                assert(keys[order[i]] <= keys[order.last()]);
            }
        }
    } else {
        let front = order.drop_last();
        assert(keys_ascend(front, keys)) by {
            assert forall|i: int, j: int| 0 <= i < j < front.len() implies keys[#[trigger] front[i]]
                <= keys[#[trigger] front[j]] by {
                assert(front[i] == order[i] && front[j] == order[j]);
            }
        }
        lemma_placed_ascends(front, keys, p);
        lemma_placed(front, keys, p);
        let q = placed(front, keys, p);
        assert forall|i: int, j: int| 0 <= i < j < r.len() implies keys[#[trigger] r[i]]
            <= keys[#[trigger] r[j]] by {
            if j == q.len() {
                assert(r[i] == q[i]);
                if q[i] != p {
                    let k = choose|k: int| 0 <= k < front.len() && front[k] == q[i];
                    assert(order[k] == q[i]);
                    assert(keys[order[k]] <= keys[order[order.len() - 1]]);
                }
            } else {
                assert(r[i] == q[i] && r[j] == q[j]);
            }
        }
    }
}

/// The first `n` positions in ascending order: every one of them, once, and the keys
/// ascend.
proof fn lemma_ascending_upto(keys: Seq<int>, n: nat)
    requires
        n <= keys.len(),
    ensures
        ascending_upto(keys, n).len() == n,
        keys_ascend(ascending_upto(keys, n), keys),
        forall|i: int| 0 <= i < n ==> 0 <= #[trigger] ascending_upto(keys, n)[i] < n,
        ascending_upto(keys, n).to_multiset() =~= Seq::new(n, |i: int| i).to_multiset(),
    decreases n,
{
    broadcast use vstd::seq_lib::group_to_multiset_ensures;

    if n > 0 {
        let m = (n - 1) as nat;
        lemma_ascending_upto(keys, m);
        let before = ascending_upto(keys, m);
        lemma_placed(before, keys, n - 1);
        lemma_placed_ascends(before, keys, n - 1);
        let r = ascending_upto(keys, n);
        assert forall|i: int| 0 <= i < n implies 0 <= #[trigger] r[i] < n by {
            if r[i] != n - 1 {
                let j = choose|j: int| 0 <= j < before.len() && before[j] == r[i];
                assert(0 <= before[j] < m);
            }
        }
        assert(Seq::new(n, |i: int| i) =~= Seq::new(m, |i: int| i).push(n - 1));
    } else {
        assert(Seq::new(n, |i: int| i) =~= seq![]);
    }
}

/// `ascending` lists every position once, and the keys at the listed positions ascend.
pub proof fn law_ascending(keys: Seq<int>)
    ensures
        ascending(keys).len() == keys.len(),
        keys_ascend(ascending(keys), keys),
        forall|i: int| 0 <= i < keys.len() ==> 0 <= #[trigger] ascending(keys)[i] < keys.len(),
        ascending(keys).to_multiset() == Seq::new(keys.len(), |i: int| i).to_multiset(),
{
    lemma_ascending_upto(keys, keys.len());
}

/// Whether positions with equal keys keep their order.
pub open spec fn keeps_order(order: Seq<int>, keys: Seq<int>) -> bool {
    forall|i: int, j: int|
        0 <= i < j < order.len() && keys[#[trigger] order[i]] == keys[#[trigger] order[j]]
            ==> order[i] < order[j]
}

proof fn lemma_placed_keeps_order(order: Seq<int>, keys: Seq<int>, p: int)
    requires
        keys_ascend(order, keys),
        keeps_order(order, keys),
        forall|i: int| 0 <= i < order.len() ==> #[trigger] order[i] < p,
    ensures
        keeps_order(placed(order, keys, p), keys),
    decreases order.len(),
{
    let r = placed(order, keys, p);
    if order.len() == 0 || keys[order.last()] <= keys[p] {
        assert forall|i: int, j: int|
            0 <= i < j < r.len() && keys[#[trigger] r[i]] == keys[#[trigger] r[j]] implies r[i]
            < r[j] by {
            assert(r[i] == order[i]);
            if j < order.len() {
                assert(r[j] == order[j]);
            }
        }
    } else {
        let front = order.drop_last();
        let last = order.last();
        let n = order.len() - 1;
        assert forall|i: int| 0 <= i < front.len() implies #[trigger] front[i] == order[i] by {}
        assert(keys_ascend(front, keys)) by {
            assert forall|i: int, j: int| 0 <= i < j < front.len() implies keys[#[trigger] front[i]]
                <= keys[#[trigger] front[j]] by {
                assert(front[i] == order[i] && front[j] == order[j]);
            }
        }
        assert(keeps_order(front, keys)) by {
            assert forall|i: int, j: int|
                0 <= i < j < front.len() && keys[#[trigger] front[i]]
                    == keys[#[trigger] front[j]] implies front[i] < front[j] by {
                assert(front[i] == order[i] && front[j] == order[j]);
            }
        }
        lemma_placed_keeps_order(front, keys, p);
        lemma_placed(front, keys, p);
        let q = placed(front, keys, p);
        assert forall|i: int, j: int|
            0 <= i < j < r.len() && keys[#[trigger] r[i]] == keys[#[trigger] r[j]] implies r[i]
            < r[j] by {
            assert(r[i] == q[i]);
            if j < q.len() {
                assert(r[j] == q[j]);
            } else {
                assert(r[j] == last);
                assert(q[i] != p);
                let k = choose|k: int| 0 <= k < front.len() && front[k] == q[i];
                assert(order[k] == q[i] && order[n] == last);
            }
        }
    }
}

proof fn lemma_upto_keeps_order(keys: Seq<int>, n: nat)
    requires
        n <= keys.len(),
    ensures
        keeps_order(ascending_upto(keys, n), keys),
    decreases n,
{
    if n > 0 {
        let m = (n - 1) as nat;
        lemma_upto_keeps_order(keys, m);
        lemma_ascending_upto(keys, m);
        let before = ascending_upto(keys, m);
        assert forall|i: int| 0 <= i < before.len() implies #[trigger] before[i] < n - 1 by {
            assert(0 <= before[i] < m);
        }
        lemma_placed_keeps_order(before, keys, n - 1);
    }
}

/// Positions with equal keys keep their order.
pub proof fn law_equal_keys_keep_their_order(keys: Seq<int>)
    ensures
        keeps_order(ascending(keys), keys),
{
    lemma_upto_keeps_order(keys, keys.len());
}

/// Every position is listed.
pub proof fn law_every_position_is_listed(keys: Seq<int>, m: int)
    requires
        0 <= m < keys.len(),
    ensures
        ascending(keys).contains(m),
{
    broadcast use vstd::seq_lib::group_to_multiset_ensures;

    law_ascending(keys);
    let all = Seq::new(keys.len(), |i: int| i);
    assert(all[m] == m);
    assert(all.contains(m));
    assert(ascending(keys).to_multiset().contains(m));
}

/// The order of some positions does not depend on keys that stand at other ones.
proof fn lemma_placed_same_keys(order: Seq<int>, keys: Seq<int>, more: Seq<int>, p: int)
    requires
        0 <= p < keys.len() <= more.len(),
        forall|i: int| 0 <= i < order.len() ==> 0 <= #[trigger] order[i] < keys.len(),
        forall|i: int| 0 <= i < keys.len() ==> keys[i] == more[i],
    ensures
        placed(order, keys, p) == placed(order, more, p),
    decreases order.len(),
{
    if order.len() > 0 {
        assert(0 <= order[order.len() - 1] < keys.len());
        let front = order.drop_last();
        assert forall|i: int| 0 <= i < front.len() implies 0 <= #[trigger] front[i]
            < keys.len() by {
            assert(front[i] == order[i]);
        }
        lemma_placed_same_keys(front, keys, more, p);
    }
}

proof fn lemma_ascending_same_keys(keys: Seq<int>, more: Seq<int>, n: nat)
    requires
        n <= keys.len() <= more.len(),
        forall|i: int| 0 <= i < keys.len() ==> keys[i] == more[i],
    ensures
        ascending_upto(keys, n) == ascending_upto(more, n),
    decreases n,
{
    if n > 0 {
        let m = (n - 1) as nat;
        lemma_ascending_same_keys(keys, more, m);
        lemma_ascending_upto(keys, m);
        let before = ascending_upto(keys, m);
        assert forall|i: int| 0 <= i < before.len() implies 0 <= #[trigger] before[i]
            < keys.len() by {
            assert(before[i] < m);
        }
        lemma_placed_same_keys(before, keys, more, n - 1);
    }
}

/// A new key that is greater than all others comes last, and the order of the others
/// stays.
pub proof fn law_greatest_comes_last(keys: Seq<int>, k: int)
    requires
        forall|i: int| 0 <= i < keys.len() ==> #[trigger] keys[i] < k,
    ensures
        ascending(keys.push(k)) == ascending(keys).push(keys.len() as int),
{
    let more = keys.push(k);
    let n = keys.len();
    lemma_ascending_same_keys(keys, more, n);
    lemma_ascending_upto(keys, n);
    let before = ascending_upto(more, n);
    if before.len() > 0 {
        let last = before[before.len() - 1];
        assert(0 <= last < n);
        assert(keys[last] < k);
    }
}

/// The positions of `keys` in ascending order of the keys.
pub fn ascending_positions(keys: &Vec<i64>) -> (r: Vec<usize>)
    ensures
        positions(r@) == ascending(numbers(keys@)),
{
    let ghost ks = numbers(keys@);
    let mut order: Vec<usize> = Vec::new();
    let mut p: usize = 0;
    assert(positions(order@) =~= ascending_upto(ks, 0));
    while p < keys.len()
        invariant
            p <= keys.len(),
            ks == numbers(keys@),
            positions(order@) == ascending_upto(ks, p as nat),
        decreases keys.len() - p,
    {
        proof {
            lemma_ascending_upto(ks, p as nat);
        }
        let ghost before = positions(order@);
        assert forall|i: int| 0 <= i < order.len() implies 0 <= #[trigger] order@[i]
            < keys.len() by {
            assert(before[i] == order@[i]);
        }
        let mut at: usize = order.len();
        assert(before.take(at as int) =~= before);
        assert(before.skip(at as int) =~= seq![]);
        assert(placed(before, ks, p as int) =~= placed(before.take(at as int), ks, p as int)
            + before.skip(at as int));
        while at > 0 && keys[order[at - 1]] > keys[p]
            invariant
                p < keys.len(),
                at <= order.len(),
                order.len() == before.len(),
                ks == numbers(keys@),
                before == positions(order@),
                forall|i: int| 0 <= i < before.len() ==> 0 <= #[trigger] before[i] < keys.len(),
                forall|i: int| 0 <= i < order.len() ==> 0 <= #[trigger] order@[i] < keys.len(),
                placed(before, ks, p as int) == placed(before.take(at as int), ks, p as int)
                    + before.skip(at as int),
            decreases at,
        {
            proof {
                let front = before.take(at as int);
                assert(front.last() == before[at - 1]);
                assert(front.drop_last() =~= before.take(at - 1));
                assert(before.skip(at - 1) =~= seq![before[at - 1]] + before.skip(at as int));
                assert(placed(front, ks, p as int) == placed(front.drop_last(), ks, p as int).push(
                    front.last(),
                ));
                assert(placed(before.take(at - 1), ks, p as int) + before.skip(at - 1) =~= placed(
                    front,
                    ks,
                    p as int,
                ) + before.skip(at as int));
            }
            at = at - 1;
        }
        proof {
            let front = before.take(at as int);
            assert(at > 0 ==> front.last() == before[at - 1]);
            assert(placed(front, ks, p as int) == front.push(p as int));
        }
        order.insert(at, p);
        assert(positions(order@) =~= before.take(at as int).push(p as int) + before.skip(
            at as int,
        ));
        p = p + 1;
    }
    order
}

} // verus!
