//! The order of texts, and sorted lists of texts.

use vstd::prelude::*;
use crate::pieces::texts;
use crate::ranking::{distinct, positions};
use crate::text::chars_of;

verus! {

/// `a` stands before `b`: at the first place where they differ `a` has the smaller
/// character, or `a` ends there.
pub open spec fn text_before(a: Seq<char>, b: Seq<char>) -> bool
    decreases a.len(),
{
    if b.len() == 0 {
        false
    } else if a.len() == 0 {
        true
    } else if a[0] != b[0] {
        a[0] < b[0]
    } else {
        text_before(a.drop_first(), b.drop_first())
    }
}

/// Of two texts one stands before the other, or they are the same; never both.
pub proof fn lemma_text_order(a: Seq<char>, b: Seq<char>)
    ensures
        !(text_before(a, b) && text_before(b, a)),
        text_before(a, b) || text_before(b, a) || a == b,
        a == b ==> !text_before(a, b),
    decreases a.len(),
{
    if a.len() > 0 && b.len() > 0 {
        lemma_text_order(a.drop_first(), b.drop_first());
        if a[0] == b[0] && a.drop_first() == b.drop_first() {
            assert(a =~= seq![a[0]] + a.drop_first());
            assert(b =~= seq![b[0]] + b.drop_first());
        }
    } else if a.len() == 0 && b.len() == 0 {
        assert(a =~= b);
    }
}

/// What stands before a text stands before all that follow it.
pub proof fn lemma_text_transitive(a: Seq<char>, b: Seq<char>, c: Seq<char>)
    requires
        text_before(a, b),
        text_before(b, c),
    ensures
        text_before(a, c),
    decreases a.len(),
{
    if a.len() > 0 && b.len() > 0 && c.len() > 0 && a[0] == b[0] && b[0] == c[0] {
        lemma_text_transitive(a.drop_first(), b.drop_first(), c.drop_first());
    }
}

/// Whether `a` stands before `b`.
pub fn is_before(a: &str, b: &str) -> (r: bool)
    ensures
        r == text_before(a@, b@),
{
    let x = chars_of(a);
    let y = chars_of(b);
    let mut i: usize = 0;
    assert(a@.skip(0) =~= a@);
    assert(b@.skip(0) =~= b@);
    while i < x.len() && i < y.len()
        invariant
            x@ == a@,
            y@ == b@,
            i <= x.len(),
            i <= y.len(),
            text_before(a@, b@) == text_before(a@.skip(i as int), b@.skip(i as int)),
        decreases x.len() - i,
    {
        if x[i] != y[i] {
            return x[i] < y[i];
        }
        assert(a@.skip(i as int).drop_first() =~= a@.skip(i + 1));
        assert(b@.skip(i as int).drop_first() =~= b@.skip(i + 1));
        i += 1;
    }
    i < y.len()
}

/// No text of the list stands before an earlier one.
pub open spec fn in_order(s: Seq<Seq<char>>) -> bool {
    forall|i: int, j: int|
        0 <= i < j < s.len() ==> !text_before(#[trigger] s[j], #[trigger] s[i])
}

/// Puts a text into a sorted list, behind those that it does not stand before.
fn insert_sorted(out: &mut Vec<String>, text: String)
    requires
        in_order(texts(old(out)@)),
    ensures
        in_order(texts(final(out)@)),
        texts(final(out)@).to_multiset() == texts(old(out)@).to_multiset().insert(text@),
{
    let ghost before = texts(out@);
    let ghost t = text@;
    let mut at: usize = out.len();
    while at > 0 && is_before(text.as_str(), out[at - 1].as_str())
        invariant
            at <= out.len(),
            before == texts(out@),
            t == text@,
            forall|j: int| at <= j < before.len() ==> text_before(t, #[trigger] before[j]),
        decreases at,
    {
        assert(before[at - 1] == out@[at - 1]@);
        at -= 1;
    }
    out.insert(at, text);
    proof {
        let after = texts(out@);
        assert(after =~= before.insert(at as int, t));
        vstd::seq_lib::to_multiset_insert(before, at as int, t);
        if at > 0 {
            assert(before[at - 1] == out@[at - 1]@);
            assert(!text_before(t, before[at - 1]));
        }
        assert forall|i: int, j: int| 0 <= i < j < after.len() implies !text_before(
            #[trigger] after[j],
            #[trigger] after[i],
        ) by {
            if j < at {
                assert(after[i] == before[i] && after[j] == before[j]);
            } else if j == at {
                assert(after[i] == before[i]);
                if text_before(t, before[i]) {
                    if i < at - 1 {
                        lemma_text_order(before[i], before[at - 1]);
                        if before[i] != before[at - 1] {
                            lemma_text_transitive(t, before[i], before[at - 1]);
                        }
                    }
                }
            } else if i < at {
                assert(after[i] == before[i] && after[j] == before[j - 1]);
            } else if i == at {
                assert(after[j] == before[j - 1]);
                lemma_text_order(t, before[j - 1]);
            } else {
                assert(after[i] == before[i - 1] && after[j] == before[j - 1]);
            }
        }
    }
}

/// The texts, sorted.
pub fn sort_texts(v: Vec<String>) -> (r: Vec<String>)
    ensures
        in_order(texts(r@)),
        texts(r@).to_multiset() == texts(v@).to_multiset(),
{
    let ghost all = v@;
    let mut out: Vec<String> = Vec::new();
    let ghost mut n: int = 0;
    proof {
        assert(texts(all.take(0)) =~= Seq::<Seq<char>>::empty());
        assert(texts(out@) =~= Seq::<Seq<char>>::empty());
    }
    for s in it: v
        invariant
            it.seq() == all,
            n == it.index(),
            in_order(texts(out@)),
            texts(out@).to_multiset() == texts(all.take(n)).to_multiset(),
    {
        proof {
            let prefix = texts(all.take(n));
            vstd::seq_lib::to_multiset_build(prefix, s@);
            assert(texts(all.take(n + 1)) =~= prefix.push(s@));
            n = n + 1;
        }
        insert_sorted(&mut out, s);
    }
    assert(all.take(n) =~= all);
    out
}

/// Sorting is determined: two lists in order that hold the same texts are the same.
pub proof fn law_sorted_unique(a: Seq<Seq<char>>, b: Seq<Seq<char>>)
    requires
        in_order(a),
        in_order(b),
        a.to_multiset() == b.to_multiset(),
    ensures
        a == b,
    decreases a.len(),
{
    broadcast use vstd::seq_lib::group_to_multiset_ensures;

    if a.len() == 0 {
        assert(b.len() == 0);
        assert(a =~= b);
    } else {
        assert(a.to_multiset().len() == a.len());
        assert(b.to_multiset().len() == b.len());
        let n = a.len() - 1;
        assert(a.to_multiset().count(a[n]) > 0) by {
            assert(a.contains(a[n]));
        }
        assert(b.to_multiset().count(b[n]) > 0) by {
            assert(b.contains(b[n]));
        }
        assert(b.contains(a[n]));
        assert(a.contains(b[n]));
        let j = choose|j: int| 0 <= j < b.len() && b[j] == a[n];
        let i = choose|i: int| 0 <= i < a.len() && a[i] == b[n];
        lemma_text_order(a[n], b[n]);
        assert(a[n] == b[n]);
        assert(a.drop_last().push(a[n]) =~= a);
        assert(b.drop_last().push(b[n]) =~= b);
        vstd::seq_lib::to_multiset_build(a.drop_last(), a[n]);
        vstd::seq_lib::to_multiset_build(b.drop_last(), b[n]);
        assert(a.drop_last().to_multiset() =~= a.to_multiset().remove(a[n]));
        assert(b.drop_last().to_multiset() =~= b.to_multiset().remove(b[n]));
        law_sorted_unique(a.drop_last(), b.drop_last());
    }
}

// ---------------------------------------------------------------------------
// Ranking by a number and a name
// ---------------------------------------------------------------------------

/// `a` ranks ahead of `b`: it has the larger key, or the same key and the earlier name.
pub open spec fn ahead(keys: Seq<i64>, names: Seq<Seq<char>>, a: int, b: int) -> bool {
    keys[a] > keys[b] || (keys[a] == keys[b] && text_before(names[a], names[b]))
}

/// Puts a position into a ranking, behind those that it does not rank ahead of.
pub open spec fn insert_ahead(
    order: Seq<int>,
    keys: Seq<i64>,
    names: Seq<Seq<char>>,
    i: int,
) -> Seq<int>
    decreases order.len(),
{
    if order.len() == 0 || !ahead(keys, names, i, order.last()) {
        order.push(i)
    } else {
        insert_ahead(order.drop_last(), keys, names, i).push(order.last())
    }
}

/// The first `n` positions, ranked by key and name.
pub open spec fn order_by(keys: Seq<i64>, names: Seq<Seq<char>>, n: int) -> Seq<int>
    decreases n,
{
    if n <= 0 {
        Seq::empty()
    } else {
        insert_ahead(order_by(keys, names, n - 1), keys, names, n - 1)
    }
}

/// The first of two positions does not come after the second: the second does not rank
/// ahead of it and, where neither does, the first is the smaller one.
pub open spec fn well_placed(keys: Seq<i64>, names: Seq<Seq<char>>, a: int, b: int) -> bool {
    ahead(keys, names, a, b) || (!ahead(keys, names, b, a) && a < b)
}

/// The positions are below `n` and each is well placed before those that follow it.
pub open spec fn is_order(order: Seq<int>, keys: Seq<i64>, names: Seq<Seq<char>>, n: int) -> bool {
    &&& forall|k: int| 0 <= k < order.len() ==> 0 <= #[trigger] order[k] < n
    &&& forall|j: int, k: int|
        0 <= j < k < order.len() ==> well_placed(keys, names, #[trigger] order[j], #[trigger] order[k])
}

proof fn lemma_ahead_transitive(keys: Seq<i64>, names: Seq<Seq<char>>, a: int, b: int, c: int)
    requires
        ahead(keys, names, a, b),
        well_placed(keys, names, b, c),
    ensures
        ahead(keys, names, a, c),
{
    if keys[a] == keys[b] && keys[b] == keys[c] {
        lemma_text_order(names[b], names[c]);
        if text_before(names[b], names[c]) {
            lemma_text_transitive(names[a], names[b], names[c]);
        }
    }
}

proof fn lemma_insert_ahead(
    order: Seq<int>,
    keys: Seq<i64>,
    names: Seq<Seq<char>>,
    i: int,
)
    requires
        is_order(order, keys, names, i),
        0 <= i,
    ensures
        is_order(insert_ahead(order, keys, names, i), keys, names, i + 1),
        insert_ahead(order, keys, names, i).len() == order.len() + 1,
        forall|k: int|
            0 <= k < insert_ahead(order, keys, names, i).len() ==> (#[trigger] insert_ahead(
                order,
                keys,
                names,
                i,
            )[k] == i || order.contains(insert_ahead(order, keys, names, i)[k])),
    decreases order.len(),
{
    let r = insert_ahead(order, keys, names, i);
    if order.len() == 0 {
    } else if !ahead(keys, names, i, order.last()) {
        assert forall|j: int, k: int| 0 <= j < k < r.len() implies well_placed(
            keys,
            names,
            #[trigger] r[j],
            #[trigger] r[k],
        ) by {
            if k == order.len() {
                assert(0 <= order[j] < i);
                if j < order.len() - 1 {
                    assert(well_placed(keys, names, order[j], order[order.len() - 1]));
                    if ahead(keys, names, i, order[j]) {
                        lemma_ahead_transitive(keys, names, i, order[j], order.last());
                    }
                }
            } else {
                assert(r[j] == order[j] && r[k] == order[k]);
            }
        }
        assert forall|k: int| 0 <= k < r.len() implies (#[trigger] r[k] == i || order.contains(
            r[k],
        )) by {
            if k < order.len() {
                assert(r[k] == order[k]);
            }
        }
    } else {
        let rest = order.drop_last();
        lemma_insert_ahead(rest, keys, names, i);
        let s = insert_ahead(rest, keys, names, i);
        assert(order[order.len() - 1] == order.last());
        assert forall|j: int, k: int| 0 <= j < k < r.len() implies well_placed(
            keys,
            names,
            #[trigger] r[j],
            #[trigger] r[k],
        ) by {
            if k < s.len() {
                assert(r[j] == s[j] && r[k] == s[k]);
            } else {
                assert(r[k] == order.last());
                assert(r[j] == s[j]);
                if s[j] != i {
                    let m = choose|m: int| 0 <= m < rest.len() && rest[m] == s[j];
                    assert(order[m] == s[j]);
                }
            }
        }
        assert forall|k: int| 0 <= k < r.len() implies (#[trigger] r[k] == i || order.contains(
            r[k],
        )) by {
            if k < s.len() {
                assert(r[k] == s[k]);
                if s[k] != i {
                    let m = choose|m: int| 0 <= m < rest.len() && rest[m] == s[k];
                    assert(order[m] == s[k]);
                }
            } else {
                assert(order[order.len() - 1] == r[k]);
            }
        }
    }
}

/// A ranking holds every position once; none that ranks ahead of another stands behind it,
/// and where neither ranks ahead the smaller position comes first.
pub proof fn law_order_by(keys: Seq<i64>, names: Seq<Seq<char>>, n: int)
    requires
        0 <= n,
    ensures
        order_by(keys, names, n).len() == n,
        is_order(order_by(keys, names, n), keys, names, n),
    decreases n,
{
    if n > 0 {
        law_order_by(keys, names, n - 1);
        lemma_insert_ahead(order_by(keys, names, n - 1), keys, names, n - 1);
    }
}

/// The positions, ranked by key and name.
pub fn rank_by(keys: &Vec<i64>, names: &Vec<String>) -> (r: Vec<usize>)
    requires
        keys@.len() == names@.len(),
    ensures
        positions(r@) == order_by(keys@, texts(names@), keys@.len() as int),
        r@.len() == keys@.len(),
        forall|k: int| 0 <= k < r@.len() ==> #[trigger] r@[k] < keys@.len(),
        distinct(r@),
{
    let ghost ts = texts(names@);
    let mut out: Vec<usize> = Vec::new();
    let mut i: usize = 0;
    assert(positions(out@) =~= order_by(keys@, ts, 0));
    while i < keys.len()
        invariant
            i <= keys@.len(),
            keys@.len() == names@.len(),
            ts == texts(names@),
            positions(out@) == order_by(keys@, ts, i as int),
        decreases keys.len() - i,
    {
        proof {
            law_order_by(keys@, ts, i as int);
        }
        let ghost before = positions(out@);
        assert forall|k: int| 0 <= k < out@.len() implies #[trigger] out@[k] < keys@.len() by {
            assert(before[k] < i);
        }
        let mut at: usize = out.len();
        let ghost mut tail: Seq<int> = Seq::empty();
        assert(before.take(at as int) =~= before);
        assert(insert_ahead(before, keys@, ts, i as int) =~= insert_ahead(
            before.take(at as int),
            keys@,
            ts,
            i as int,
        ) + tail);
        while at > 0 && is_ahead(keys, names, i, out[at - 1])
            invariant
                at <= out@.len(),
                i < keys@.len(),
                keys@.len() == names@.len(),
                ts == texts(names@),
                before == positions(out@),
                forall|k: int| 0 <= k < out@.len() ==> #[trigger] out@[k] < keys@.len(),
                tail == before.skip(at as int),
                insert_ahead(before, keys@, ts, i as int) == insert_ahead(
                    before.take(at as int),
                    keys@,
                    ts,
                    i as int,
                ) + tail,
            decreases at,
        {
            proof {
                let head = before.take(at as int);
                assert(head.last() == out@[at - 1]);
                assert(head.drop_last() =~= before.take(at - 1));
                let inner = insert_ahead(before.take(at - 1), keys@, ts, i as int);
                assert(inner.push(head.last()) + tail =~= inner + (seq![head.last()] + tail));
                tail = seq![head.last()] + tail;
                assert(tail =~= before.skip(at - 1));
            }
            at -= 1;
        }
        out.insert(at, i);
        proof {
            let head = before.take(at as int);
            if at > 0 {
                assert(head.last() == before[at - 1]);
            }
            assert(insert_ahead(head, keys@, ts, i as int) == head.push(i as int));
            assert(positions(out@) =~= head.push(i as int) + tail);
            assert(order_by(keys@, ts, i + 1) == insert_ahead(before, keys@, ts, i as int));
        }
        i += 1;
    }
    proof {
        law_order_by(keys@, ts, i as int);
        let order = positions(out@);
        assert forall|j: int, k: int| 0 <= j < k < out@.len() implies out@[j] != out@[k] by {
            assert(well_placed(keys@, ts, order[j], order[k]));
            lemma_text_order(ts[order[j]], ts[order[k]]);
        }
        assert forall|k: int| 0 <= k < out@.len() implies #[trigger] out@[k] < keys@.len() by {
            assert(order[k] < i);
        }
    }
    out
}

fn is_ahead(keys: &Vec<i64>, names: &Vec<String>, a: usize, b: usize) -> (r: bool)
    requires
        a < keys@.len(),
        b < keys@.len(),
        keys@.len() == names@.len(),
    ensures
        r == ahead(keys@, texts(names@), a as int, b as int),
{
    keys[a] > keys[b] || (keys[a] == keys[b] && is_before(names[a].as_str(), names[b].as_str()))
}

/// At the first place where two texts differ, the smaller character decides; a text stands
/// before every longer one that begins with it.
pub proof fn law_first_difference(a: Seq<char>, b: Seq<char>, p: int)
    requires
        0 <= p <= a.len(),
        p < b.len(),
        forall|i: int| 0 <= i < p ==> a[i] == b[i],
    ensures
        p == a.len() ==> text_before(a, b),
        p < a.len() && a[p] != b[p] ==> (text_before(a, b) <==> a[p] < b[p]),
    decreases p,
{
    if p > 0 {
        let x = a.drop_first();
        let y = b.drop_first();
        assert forall|i: int| 0 <= i < p - 1 implies x[i] == y[i] by {
            assert(a[i + 1] == b[i + 1]);
        }
        assert(a[0] == b[0]);
        law_first_difference(x, y, p - 1);
    }
}

/// A ranking goes down: what stands in front has the greater number or, with the same
/// number, no later name. Every position stands in it once.
pub proof fn law_ranked_down(keys: Seq<i64>, names: Seq<Seq<char>>, n: int, j: int, k: int)
    requires
        0 <= j < k < n,
    ensures
        order_by(keys, names, n).len() == n,
        keys[order_by(keys, names, n)[j]] >= keys[order_by(keys, names, n)[k]],
        keys[order_by(keys, names, n)[j]] == keys[order_by(keys, names, n)[k]] ==> !text_before(
            names[order_by(keys, names, n)[k]],
            names[order_by(keys, names, n)[j]],
        ),
        order_by(keys, names, n)[j] != order_by(keys, names, n)[k],
        0 <= order_by(keys, names, n)[j] < n,
        0 <= order_by(keys, names, n)[k] < n,
{
    law_order_by(keys, names, n);
    let order = order_by(keys, names, n);
    assert(well_placed(keys, names, order[j], order[k]));
    lemma_text_order(names[order[j]], names[order[k]]);
}

} // verus!
