//! Ranks items by an integer key, greatest first; of two equal keys the earlier item
//! comes first.

use vstd::prelude::*;
use crate::pieces::{contains_string, push_text, texts};

verus! {

/// `order` with position `i` inserted behind every position whose key is at least its
/// own.
pub open spec fn insert_ranked(order: Seq<int>, keys: Seq<int>, i: int) -> Seq<int>
    decreases order.len(),
{
    if order.len() == 0 || keys[order.last()] >= keys[i] {
        order.push(i)
    } else {
        insert_ranked(order.drop_last(), keys, i).push(order.last())
    }
}

/// The first `n` positions, ranked by their keys.
pub open spec fn ranking(keys: Seq<int>, n: int) -> Seq<int>
    decreases n,
{
    if n <= 0 {
        Seq::empty()
    } else {
        insert_ranked(ranking(keys, n - 1), keys, n - 1)
    }
}

/// `a` comes before `b` in a ranking.
pub open spec fn ranks_before(keys: Seq<int>, a: int, b: int) -> bool {
    keys[a] > keys[b] || (keys[a] == keys[b] && a < b)
}

/// The positions are ranked, each less than `n`.
pub open spec fn is_ranked(order: Seq<int>, keys: Seq<int>, n: int) -> bool {
    &&& forall|k: int| 0 <= k < order.len() ==> 0 <= #[trigger] order[k] < n
    &&& forall|j: int, k: int|
        0 <= j < k < order.len() ==> ranks_before(keys, #[trigger] order[j], #[trigger] order[k])
}

proof fn lemma_insert_ranked(order: Seq<int>, keys: Seq<int>, i: int)
    requires
        is_ranked(order, keys, i),
        0 <= i,
    ensures
        is_ranked(insert_ranked(order, keys, i), keys, i + 1),
        insert_ranked(order, keys, i).len() == order.len() + 1,
        forall|x: int|
            #[trigger] insert_ranked(order, keys, i).contains(x) <==> (order.contains(x) || x == i),
    decreases order.len(),
{
    let all = insert_ranked(order, keys, i);
    if order.len() == 0 || keys[order.last()] >= keys[i] {
        assert forall|j: int, k: int| 0 <= j < k < all.len() implies ranks_before(
            keys,
            #[trigger] all[j],
            #[trigger] all[k],
        ) by {
            if k == order.len() {
                if j < order.len() - 1 {
                    assert(ranks_before(keys, order[j], order[order.len() - 1]));
                }
                assert(order[j] < i);
            } else {
                assert(all[j] == order[j] && all[k] == order[k]);
            }
        }
        assert forall|x: int| all.contains(x) <==> (order.contains(x) || x == i) by {
            if order.contains(x) {
                let k = choose|k: int| 0 <= k < order.len() && order[k] == x;
                assert(all[k] == x);
            }
            if x == i {
                assert(all[order.len() as int] == i);
            }
            if all.contains(x) {
                let k = choose|k: int| 0 <= k < all.len() && all[k] == x;
                if k < order.len() {
                    assert(order[k] == x);
                }
            }
        }
    } else {
        let front = order.drop_last();
        let last = order.last();
        assert forall|j: int, k: int| 0 <= j < k < front.len() implies ranks_before(
            keys,
            #[trigger] front[j],
            #[trigger] front[k],
        ) by {
            assert(ranks_before(keys, order[j], order[k]));
        }
        lemma_insert_ranked(front, keys, i);
        let sub = insert_ranked(front, keys, i);
        assert(all =~= sub.push(last));
        assert forall|j: int, k: int| 0 <= j < k < all.len() implies ranks_before(
            keys,
            #[trigger] all[j],
            #[trigger] all[k],
        ) by {
            if k == sub.len() {
                assert(sub.contains(sub[j]));
                if sub[j] != i {
                    assert(front.contains(sub[j]));
                    let m = choose|m: int| 0 <= m < front.len() && front[m] == sub[j];
                    assert(order[m] == sub[j]);
                    assert(ranks_before(keys, order[m], order[order.len() - 1]));
                }
            } else {
                assert(all[j] == sub[j] && all[k] == sub[k]);
            }
        }
        assert forall|k: int| 0 <= k < all.len() implies 0 <= #[trigger] all[k] < i + 1 by {
            if k < sub.len() {
                assert(all[k] == sub[k]);
            } else {
                assert(order[order.len() - 1] < i);
            }
        }
        assert forall|x: int| all.contains(x) <==> (order.contains(x) || x == i) by {
            if order.contains(x) {
                let k = choose|k: int| 0 <= k < order.len() && order[k] == x;
                if k < front.len() {
                    assert(front[k] == x);
                    assert(sub.contains(x));
                    let m = choose|m: int| 0 <= m < sub.len() && sub[m] == x;
                    assert(all[m] == x);
                } else {
                    assert(all[sub.len() as int] == x);
                }
            }
            if x == i {
                assert(sub.contains(x));
                let m = choose|m: int| 0 <= m < sub.len() && sub[m] == x;
                assert(all[m] == x);
            }
            if all.contains(x) {
                let k = choose|k: int| 0 <= k < all.len() && all[k] == x;
                if k < sub.len() {
                    assert(sub[k] == x);
                    assert(sub.contains(x));
                    if x != i {
                        let m = choose|m: int| 0 <= m < front.len() && front[m] == x;
                        assert(order[m] == x);
                    }
                } else {
                    assert(order[order.len() - 1] == x);
                }
            }
        }
    }
}

/// A ranking lists every position once, the greater key first, and of two equal keys
/// the earlier position first.
pub proof fn law_ranking(keys: Seq<int>, n: int)
    requires
        0 <= n <= keys.len(),
    ensures
        ranking(keys, n).len() == n,
        is_ranked(ranking(keys, n), keys, n),
        forall|x: int| #[trigger] ranking(keys, n).contains(x) <==> 0 <= x < n,
    decreases n,
{
    if n > 0 {
        law_ranking(keys, n - 1);
        lemma_insert_ranked(ranking(keys, n - 1), keys, n - 1);
        assert forall|x: int| #[trigger] ranking(keys, n).contains(x) <==> 0 <= x < n by {
            assert(ranking(keys, n - 1).contains(x) <==> 0 <= x < n - 1);
        }
    }
}

/// The integer keys as mathematical integers.
pub open spec fn ints(keys: Seq<i64>) -> Seq<int> {
    Seq::new(keys.len(), |i: int| keys[i] as int)
}

/// The positions as mathematical integers.
pub open spec fn positions(order: Seq<usize>) -> Seq<int> {
    Seq::new(order.len(), |i: int| order[i] as int)
}

/// The positions of `keys`, ranked.
pub fn rank_desc(keys: &[i64]) -> (r: Vec<usize>)
    ensures
        positions(r@) == ranking(ints(keys@), keys@.len() as int),
        r@.len() == keys@.len(),
{
    let mut order: Vec<usize> = Vec::new();
    let mut n: usize = 0;
    assert(positions(order@) =~= ranking(ints(keys@), 0));
    while n < keys.len()
        invariant
            n <= keys.len(),
            positions(order@) == ranking(ints(keys@), n as int),
            order@.len() == n,
        decreases keys.len() - n,
    {
        proof {
            law_ranking(ints(keys@), n as int);
        }
        let ghost whole = positions(order@);
        let mut p: usize = order.len();
        assert(whole.take(p as int) =~= whole);
        assert(whole.skip(p as int) =~= Seq::<int>::empty());
        while p > 0 && keys[order[p - 1]] < keys[n]
            invariant
                p <= order.len(),
                n < keys.len(),
                order@.len() == n,
                whole == positions(order@),
                is_ranked(whole, ints(keys@), n as int),
                insert_ranked(whole, ints(keys@), n as int) == insert_ranked(
                    whole.take(p as int),
                    ints(keys@),
                    n as int,
                ) + whole.skip(p as int),
            decreases p,
        {
            assert(whole[p - 1] < n);
            proof {
                let t = whole.take(p as int);
                assert(t.drop_last() =~= whole.take(p - 1));
                assert(t.last() == whole[p - 1]);
                assert(insert_ranked(whole.take(p - 1), ints(keys@), n as int) + whole.skip(p - 1)
                    =~= insert_ranked(t, ints(keys@), n as int) + whole.skip(p as int));
            }
            p -= 1;
            if p > 0 {
                assert(whole[p - 1] < n);
            }
        }
        order.insert(p, n);
        proof {
            let t = whole.take(p as int);
            if p > 0 {
                assert(t.last() == whole[p - 1]);
            }
            assert(insert_ranked(t, ints(keys@), n as int) == t.push(n as int));
            assert(positions(order@) =~= t.push(n as int) + whole.skip(p as int));
        }
        n += 1;
    }
    order
}

/// No position is listed twice.
pub open spec fn distinct(order: Seq<usize>) -> bool {
    forall|j: int, k: int| 0 <= j < k < order.len() ==> order[j] != order[k]
}

/// The items at the listed positions, in that order.
pub fn take_at<T>(items: Vec<T>, order: &[usize]) -> (r: Vec<T>)
    requires
        distinct(order@),
        forall|k: int| 0 <= k < order@.len() ==> #[trigger] order@[k] < items@.len(),
    ensures
        r@.len() == order@.len(),
        forall|k: int| 0 <= k < r@.len() ==> #[trigger] r@[k] == items@[order@[k] as int],
{
    let ghost all = items@;
    let mut slots: Vec<Option<T>> = Vec::new();
    for item in it: items
        invariant
            it.seq() == all,
            slots@.len() == it.index(),
            forall|j: int| 0 <= j < slots@.len() ==> #[trigger] slots@[j] == Some(all[j]),
    {
        slots.push(Some(item));
    }
    let mut out: Vec<T> = Vec::new();
    let mut i: usize = 0;
    while i < order.len()
        invariant
            i <= order.len(),
            out@.len() == i,
            slots@.len() == all.len(),
            distinct(order@),
            forall|k: int| 0 <= k < order@.len() ==> #[trigger] order@[k] < all.len(),
            forall|k: int| 0 <= k < i ==> #[trigger] out@[k] == all[order@[k] as int],
            forall|k: int|
                i <= k < order@.len() ==> slots@[#[trigger] order@[k] as int] == Some(
                    all[order@[k] as int],
                ),
        decreases order.len() - i,
    {
        let p: usize = order[i];
        let slot = slots[p].take();
        match slot {
            Some(item) => {
                out.push(item);
            },
            None => {
                assert(false);
            },
        }
        i += 1;
    }
    out
}

/// The positions of the keys that are neither in `existing` nor earlier in `keys`.
pub open spec fn new_positions(existing: Seq<Seq<char>>, keys: Seq<Seq<char>>) -> Seq<int>
    decreases keys.len(),
{
    if keys.len() == 0 {
        Seq::empty()
    } else {
        let before = new_positions(existing, keys.drop_last());
        if existing.contains(keys.last()) || keys.drop_last().contains(keys.last()) {
            before
        } else {
            before.push(keys.len() - 1)
        }
    }
}

/// The new positions are increasing, their keys are new and differ, and every key is
/// in `existing` or at a new position.
pub proof fn law_new_positions(existing: Seq<Seq<char>>, keys: Seq<Seq<char>>)
    ensures
        new_positions(existing, keys).len() <= keys.len(),
        forall|k: int|
            0 <= k < new_positions(existing, keys).len() ==> {
                let p = #[trigger] new_positions(existing, keys)[k];
                0 <= p < keys.len() && !existing.contains(keys[p])
            },
        forall|j: int, k: int|
            0 <= j < k < new_positions(existing, keys).len() ==> #[trigger] new_positions(
                existing,
                keys,
            )[j] < #[trigger] new_positions(existing, keys)[k] && keys[new_positions(
                existing,
                keys,
            )[j]] != keys[new_positions(existing, keys)[k]],
        forall|i: int|
            0 <= i < keys.len() && !existing.contains(#[trigger] keys[i]) ==> exists|k: int|
                0 <= k < new_positions(existing, keys).len() && keys[#[trigger] new_positions(
                    existing,
                    keys,
                )[k]] == keys[i],
    decreases keys.len(),
{
    if keys.len() > 0 {
        let front = keys.drop_last();
        law_new_positions(existing, front);
        let before = new_positions(existing, front);
        let all = new_positions(existing, keys);
        let last = keys.len() - 1;
        assert forall|k: int| 0 <= k < all.len() implies {
            let p = #[trigger] all[k];
            0 <= p < keys.len() && !existing.contains(keys[p])
        } by {
            if k < before.len() {
                assert(all[k] == before[k]);
                assert(front[before[k]] == keys[before[k]]);
            }
        }
        assert forall|j: int, k: int| 0 <= j < k < all.len() implies #[trigger] all[j]
            < #[trigger] all[k] && keys[all[j]] != keys[all[k]] by {
            assert(all[j] == before[j]);
            assert(front[before[j]] == keys[before[j]]);
            if k < before.len() {
                assert(all[k] == before[k]);
                assert(front[before[k]] == keys[before[k]]);
            } else {
                if keys[before[j]] == keys[last] {
                    assert(front[before[j]] == keys.last());
                }
            }
        }
        assert forall|i: int| 0 <= i < keys.len() && !existing.contains(
            #[trigger] keys[i],
        ) implies exists|k: int| 0 <= k < all.len() && keys[#[trigger] all[k]] == keys[i] by {
            if i < last {
                assert(front[i] == keys[i]);
                let k = choose|k: int|
                    0 <= k < before.len() && front[#[trigger] before[k]] == front[i];
                assert(all[k] == before[k]);
                assert(keys[all[k]] == keys[i]);
            } else if front.contains(keys.last()) {
                let m = choose|m: int| 0 <= m < front.len() && front[m] == keys.last();
                let k = choose|k: int|
                    0 <= k < before.len() && front[#[trigger] before[k]] == front[m];
                assert(all[k] == before[k]);
                assert(keys[all[k]] == keys[i]);
            } else {
                assert(all[before.len() as int] == last);
            }
        }
    }
}

/// The positions of the keys that are neither in `existing` nor earlier in `keys`.
pub fn find_new(existing: &Vec<String>, keys: &Vec<String>) -> (r: Vec<usize>)
    ensures
        positions(r@) == new_positions(texts(existing@), texts(keys@)),
        distinct(r@),
        forall|k: int| 0 <= k < r@.len() ==> #[trigger] r@[k] < keys@.len(),
{
    let mut out: Vec<usize> = Vec::new();
    let mut seen: Vec<String> = Vec::new();
    let mut i: usize = 0;
    let ghost ks = texts(keys@);
    assert(ks.take(0) =~= Seq::<Seq<char>>::empty());
    assert(positions(out@) =~= Seq::<int>::empty());
    assert(texts(seen@) =~= ks.take(0));
    while i < keys.len()
        invariant
            i <= keys.len(),
            ks == texts(keys@),
            texts(seen@) == ks.take(i as int),
            positions(out@) == new_positions(texts(existing@), ks.take(i as int)),
        decreases keys.len() - i,
    {
        let key = keys[i].as_str();
        proof {
            assert(ks.take(i + 1).drop_last() =~= ks.take(i as int));
            assert(ks.take(i + 1).last() == keys@[i as int]@);
        }
        let ghost before = out@;
        if !contains_string(existing, key) && !contains_string(&seen, key) {
            out.push(i);
            assert(positions(out@) =~= positions(before).push(i as int));
        }
        let copy = keys[i].clone();
        push_text(&mut seen, copy);
        assert(texts(seen@) =~= ks.take(i + 1));
        i += 1;
    }
    assert(ks.take(i as int) =~= ks);
    proof {
        law_new_positions(texts(existing@), ks);
        assert forall|j: int, k: int| 0 <= j < k < out@.len() implies out@[j] != out@[k] by {
            assert(positions(out@)[j] < positions(out@)[k]);
        }
        assert forall|k: int| 0 <= k < out@.len() implies #[trigger] out@[k] < keys@.len() by {
            assert(positions(out@)[k] < ks.len());
        }
    }
    out
}

/// A ranking goes down: what stands in front has the greater key or, with the same key, the
/// smaller position. Every position stands in it.
pub proof fn law_ranking_down(keys: Seq<int>, n: int, j: int, k: int)
    requires
        0 <= j < k < n <= keys.len(),
    ensures
        ranking(keys, n).len() == n,
        keys[ranking(keys, n)[j]] >= keys[ranking(keys, n)[k]],
        keys[ranking(keys, n)[j]] == keys[ranking(keys, n)[k]] ==> ranking(keys, n)[j] < ranking(
            keys,
            n,
        )[k],
        forall|x: int| 0 <= x < n ==> ranking(keys, n).contains(x),
{
    law_ranking(keys, n);
    let order = ranking(keys, n);
    assert(ranks_before(keys, order[j], order[k]));
}

} // verus!
