//! Stable ordering by a numeric key.

use vstd::prelude::*;
use vstd::seq_lib::*;
use vstd::multiset::*;

verus! {

broadcast use group_to_multiset_ensures;

/// Position `a` comes before position `b`: by key, then by position.
pub open spec fn ranks_before(keys: Seq<u64>, a: usize, b: usize) -> bool {
    keys[a as int] < keys[b as int] || (keys[a as int] == keys[b as int] && a < b)
}

/// The positions of `keys` in ascending order of their keys, equal keys in
/// order of position: each position once, and nothing out of order.
pub open spec fn is_stable_order(p: Seq<usize>, keys: Seq<u64>) -> bool {
    &&& p.len() == keys.len()
    &&& forall|i: int| 0 <= i < p.len() ==> #[trigger] p[i] < keys.len()
    &&& forall|k: usize| k < keys.len() ==> #[trigger] p.contains(k)
    &&& ranked(p, keys)
}

/// Nothing out of order.
pub open spec fn ranked(p: Seq<usize>, keys: Seq<u64>) -> bool {
    forall|i: int, j: int|
        0 <= i < j < p.len() ==> ranks_before(keys, #[trigger] p[i], #[trigger] p[j])
}

/// The positions from `lo` up to `hi`.
spec fn positions(lo: int, hi: int) -> Seq<usize> {
    Seq::new((hi - lo) as nat, |i: int| (lo + i) as usize)
}

fn merge(a: &Vec<usize>, b: &Vec<usize>, keys: &[u64]) -> (out: Vec<usize>)
    requires
        ranked(a@, keys@),
        ranked(b@, keys@),
        forall|i: int| 0 <= i < a@.len() ==> #[trigger] a@[i] < keys@.len(),
        forall|i: int| 0 <= i < b@.len() ==> #[trigger] b@[i] < keys@.len(),
        forall|i: int, j: int|
            0 <= i < a@.len() && 0 <= j < b@.len() ==> #[trigger] a@[i] != #[trigger] b@[j],
    ensures
        ranked(out@, keys@),
        out@.to_multiset() == a@.to_multiset().add(b@.to_multiset()),
        forall|i: int| 0 <= i < out@.len() ==> #[trigger] out@[i] < keys@.len(),
        out@.len() == a@.len() + b@.len(),
{
    let mut out: Vec<usize> = Vec::new();
    let mut i: usize = 0;
    let mut j: usize = 0;
    proof {
        assert(a@.subrange(0, 0) =~= seq![]);
        assert(b@.subrange(0, 0) =~= seq![]);
        assert(out@.to_multiset() =~= a@.subrange(0, 0).to_multiset().add(
            b@.subrange(0, 0).to_multiset(),
        ));
    }
    while i < a.len() || j < b.len()
        invariant
            i <= a@.len(),
            j <= b@.len(),
            out@.len() == i + j,
            ranked(a@, keys@),
            ranked(b@, keys@),
            ranked(out@, keys@),
            forall|k: int| 0 <= k < a@.len() ==> #[trigger] a@[k] < keys@.len(),
            forall|k: int| 0 <= k < b@.len() ==> #[trigger] b@[k] < keys@.len(),
            forall|k: int| 0 <= k < out@.len() ==> #[trigger] out@[k] < keys@.len(),
            forall|k: int, l: int|
                0 <= k < a@.len() && 0 <= l < b@.len() ==> #[trigger] a@[k] != #[trigger] b@[l],
            forall|k: int, l: int|
                0 <= k < out@.len() && i <= l < a@.len() ==> ranks_before(
                    keys@,
                    #[trigger] out@[k],
                    #[trigger] a@[l],
                ),
            forall|k: int, l: int|
                0 <= k < out@.len() && j <= l < b@.len() ==> ranks_before(
                    keys@,
                    #[trigger] out@[k],
                    #[trigger] b@[l],
                ),
            out@.to_multiset() == a@.subrange(0, i as int).to_multiset().add(
                b@.subrange(0, j as int).to_multiset(),
            ),
        decreases a@.len() - i + b@.len() - j,
    {
        let take_a = if i == a.len() {
            false
        } else if j == b.len() {
            true
        } else {
            let x: usize = a[i];
            let y: usize = b[j];
            keys[x] < keys[y] || (keys[x] == keys[y] && x < y)
        };
        let ghost before = out@;
        if take_a {
            proof {
                assert(a@.subrange(0, i + 1) =~= a@.subrange(0, i as int).push(a@[i as int]));
            }
            out.push(a[i]);
            i += 1;
            proof {
                let x = a@[i - 1];
                assert(out@ == before.push(x));
                assert(before.push(x).to_multiset() =~= before.to_multiset().insert(x));
                assert(a@.subrange(0, i - 1).push(x).to_multiset() =~= a@.subrange(
                    0,
                    i - 1,
                ).to_multiset().insert(x));
            }
        } else {
            proof {
                assert(b@.subrange(0, j + 1) =~= b@.subrange(0, j as int).push(b@[j as int]));
            }
            out.push(b[j]);
            j += 1;
            proof {
                let x = b@[j - 1];
                assert(out@ == before.push(x));
                assert(before.push(x).to_multiset() =~= before.to_multiset().insert(x));
                assert(b@.subrange(0, j - 1).push(x).to_multiset() =~= b@.subrange(
                    0,
                    j - 1,
                ).to_multiset().insert(x));
            }
        }
        proof {
            assert(out@.to_multiset() =~= a@.subrange(0, i as int).to_multiset().add(
                b@.subrange(0, j as int).to_multiset(),
            ));
        }
    }
    proof {
        assert(a@.subrange(0, i as int) =~= a@);
        assert(b@.subrange(0, j as int) =~= b@);
    }
    out
}

fn order_between(lo: usize, hi: usize, keys: &[u64]) -> (out: Vec<usize>)
    requires
        lo <= hi <= keys@.len(),
    ensures
        ranked(out@, keys@),
        out@.to_multiset() == positions(lo as int, hi as int).to_multiset(),
        forall|i: int| 0 <= i < out@.len() ==> lo <= #[trigger] out@[i] < hi,
        out@.len() == hi - lo,
    decreases hi - lo,
{
    if hi - lo <= 1 {
        let mut out: Vec<usize> = Vec::new();
        if lo < hi {
            out.push(lo);
        }
        proof {
            assert(out@ =~= positions(lo as int, hi as int));
        }
        return out;
    }
    let mid: usize = lo + (hi - lo) / 2;
    let a = order_between(lo, mid, keys);
    let b = order_between(mid, hi, keys);
    let out = merge(&a, &b, keys);
    proof {
        let p = positions(lo as int, mid as int);
        let q = positions(mid as int, hi as int);
        assert(positions(lo as int, hi as int) =~= p + q);
        lemma_multiset_commutative(p, q);
        assert forall|i: int| 0 <= i < out@.len() implies lo <= #[trigger] out@[i] < hi by {
            assert(out@.contains(out@[i]));
            assert(out@.to_multiset().count(out@[i]) > 0);
            if a@.to_multiset().count(out@[i]) > 0 {
                assert(a@.contains(out@[i]));
            } else {
                assert(b@.to_multiset().count(out@[i]) > 0);
                assert(b@.contains(out@[i]));
            }
        }
    }
    out
}

/// The positions of `keys` in ascending order of their keys, equal keys in
/// order of position.
pub fn stable_order(keys: &[u64]) -> (p: Vec<usize>)
    ensures
        is_stable_order(p@, keys@),
{
    let p = order_between(0, keys.len(), keys);
    proof {
        let all = positions(0, keys@.len() as int);
        assert forall|k: usize| k < keys@.len() implies #[trigger] p@.contains(k) by {
            assert(all[k as int] == k);
            assert(all.contains(k));
            assert(all.to_multiset().count(k) > 0);
        }
    }
    p
}

/// There is only one stable order.
pub proof fn stable_order_is_unique(p: Seq<usize>, q: Seq<usize>, keys: Seq<u64>)
    requires
        is_stable_order(p, keys),
        is_stable_order(q, keys),
    ensures
        p == q,
{
    assert forall|i: int| 0 <= i < p.len() implies p[i] == q[i] by {
        same_up_to(p, q, keys, i);
    }
    assert(p =~= q);
}

proof fn same_up_to(p: Seq<usize>, q: Seq<usize>, keys: Seq<u64>, n: int)
    requires
        is_stable_order(p, keys),
        is_stable_order(q, keys),
        0 <= n < p.len(),
    ensures
        forall|i: int| 0 <= i <= n ==> p[i] == q[i],
    decreases n,
{
    if n > 0 {
        same_up_to(p, q, keys, n - 1);
    }
    assert(q.contains(p[n]));
    assert(p.contains(q[n]));
    let a = choose|a: int| 0 <= a < q.len() && q[a] == p[n];
    let b = choose|b: int| 0 <= b < p.len() && p[b] == q[n];
    if a < n {
        assert(p[a] == q[a]);
        assert(ranks_before(keys, p[a], p[n]));
    }
    if b < n {
        assert(p[b] == q[b]);
        assert(ranks_before(keys, q[b], q[n]));
    }
    if a > n && b > n {
        assert(ranks_before(keys, q[n], q[a]));
        assert(ranks_before(keys, p[n], p[b]));
    }
}

} // verus!
