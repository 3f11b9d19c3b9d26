//! Endpoint ordering.
//!
//! Endpoints are grouped by ascending priority; within a priority, entries are
//! drawn by weight without replacement, so a caller walking the list in order
//! spreads load across equal-priority endpoints while still failing over to the
//! next priority band. Zero-weight endpoints sort last within their band and
//! are only reached when every heavier sibling has failed.

use rand::rngs::StdRng;
use rand::{Rng, SeedableRng};
use vstd::multiset::*;
use vstd::prelude::*;
use vstd::seq_lib::*;
use vstd::set_lib::*;

use crate::endpoint::{Endpoint, EndpointModel, endpoint_models};
use crate::order::{is_stable_order, ranks_before, stable_order};
use crate::record::{Record, endpoints_of};

verus! {

broadcast use group_to_multiset_ensures;

/// `rand`'s standard generator.
#[verifier::external_type_specification]
#[verifier::external_body]
pub struct ExStdRng(rand::rngs::StdRng);

/// `rand::Rng::random_range` over `0..total`: some number below `total`. Which
/// one is up to chance; an empty range is not drawn from.
#[verifier::external_body]
fn draw_below(rng: &mut StdRng, total: u64) -> (pick: u64)
    requires
        total > 0,
    ensures
        pick < total,
{
    rng.random_range(0..total)
}

/// A standard generator seeded from `rand::rng`, the thread's own.
#[verifier::external_body]
fn fresh_rng() -> (rng: StdRng) {
    StdRng::from_rng(&mut rand::rng())
}

/// The sum of weights.
pub open spec fn weight_sum(v: Seq<EndpointModel>) -> nat
    decreases v.len(),
{
    if v.len() == 0 {
        0
    } else {
        (weight_sum(v.drop_last()) + v.last().weight) as nat
    }
}

/// A sum as far as it can be counted.
pub open spec fn counted(n: nat) -> u64 {
    if n > u64::MAX {
        u64::MAX
    } else {
        n as u64
    }
}

/// How many endpoints at the front share the first one's priority.
pub open spec fn band_len(v: Seq<EndpointModel>) -> nat
    decreases v.len(),
{
    if v.len() == 0 {
        0
    } else if v.len() == 1 || v[1].priority != v[0].priority {
        1
    } else {
        1 + band_len(v.subrange(1, v.len() as int))
    }
}

/// The endpoints at the front that share the first one's priority.
pub open spec fn band(v: Seq<EndpointModel>) -> Seq<EndpointModel> {
    v.subrange(0, band_len(v) as int)
}

/// `i` is the endpoint that a pick falls on, each taking up as much room as it
/// has weight.
pub open spec fn falls_on(v: Seq<EndpointModel>, pick: nat, i: int) -> bool {
    0 <= i < v.len() && weight_sum(v.subrange(0, i)) <= pick < weight_sum(v.subrange(0, i + 1))
}

/// The endpoint to try next, given a number drawn below the sum of the band's
/// weights: the first when nothing in the band has weight.
pub open spec fn next_choice(rest: Seq<EndpointModel>, pick: u64) -> int {
    if weight_sum(band(rest)) == 0 {
        0
    } else {
        choose|i: int| falls_on(band(rest), pick as nat, i)
    }
}

/// The endpoints in the order in which these draws choose them.
pub open spec fn draw_order(rest: Seq<EndpointModel>, draws: Seq<u64>) -> Seq<EndpointModel>
    decreases rest.len(),
{
    if rest.len() == 0 {
        seq![]
    } else {
        let i = next_choice(rest, draws[0]);
        if 0 <= i < rest.len() {
            seq![rest[i]] + draw_order(rest.remove(i), draws.subrange(1, draws.len() as int))
        } else {
            seq![]
        }
    }
}

/// One draw for each endpoint, each below the sum of weights it is drawn from.
pub open spec fn draws_ok(rest: Seq<EndpointModel>, draws: Seq<u64>) -> bool
    decreases rest.len(),
{
    if rest.len() == 0 {
        draws.len() == 0
    } else {
        let i = next_choice(rest, draws[0]);
        &&& draws.len() == rest.len()
        &&& weight_sum(band(rest)) > 0 ==> draws[0] < weight_sum(band(rest))
        &&& 0 <= i < rest.len()
        &&& draws_ok(rest.remove(i), draws.subrange(1, draws.len() as int))
    }
}

/// The priorities of endpoints, as sort keys.
pub open spec fn priorities(v: Seq<EndpointModel>) -> Seq<u64> {
    Seq::new(v.len(), |i: int| v[i].priority as u64)
}

/// `out` is `v` in ascending order of priority, equals in their order.
pub open spec fn in_bands(v: Seq<EndpointModel>, out: Seq<EndpointModel>) -> bool {
    exists|p: Seq<usize>| #[trigger]
        is_stable_order(p, priorities(v)) && out == Seq::new(p.len(), |i: int| v[p[i] as int])
}

/// `out` is an order in which chance may put `v`.
pub open spec fn may_order(v: Seq<EndpointModel>, out: Seq<EndpointModel>) -> bool {
    exists|sorted: Seq<EndpointModel>, draws: Seq<u64>|
        #![trigger in_bands(v, sorted), draws_ok(sorted, draws)]
        in_bands(v, sorted) && draws_ok(sorted, draws) && out == draw_order(sorted, draws)
}

// ---------------------------------------------------------------------------
// Choosing
// ---------------------------------------------------------------------------

proof fn weight_sum_grows(v: Seq<EndpointModel>, i: int, j: int)
    requires
        0 <= i <= j <= v.len(),
    ensures
        weight_sum(v.subrange(0, i)) <= weight_sum(v.subrange(0, j)),
    decreases j - i,
{
    if i < j {
        weight_sum_grows(v, i, j - 1);
        assert(v.subrange(0, j).drop_last() =~= v.subrange(0, j - 1));
    }
}

proof fn falls_on_one(v: Seq<EndpointModel>, pick: nat, i: int, j: int)
    requires
        falls_on(v, pick, i),
        falls_on(v, pick, j),
    ensures
        i == j,
{
    if i < j {
        weight_sum_grows(v, i + 1, j);
    }
    if j < i {
        weight_sum_grows(v, j + 1, i);
    }
}

proof fn band_len_bound(v: Seq<EndpointModel>)
    ensures
        band_len(v) <= v.len(),
        v.len() > 0 ==> band_len(v) > 0,
        forall|i: int| 0 <= i < band_len(v) ==> (#[trigger] v[i]).priority == v[0].priority,
        band_len(v) < v.len() ==> v[band_len(v) as int].priority != v[0].priority,
    decreases v.len(),
{
    if v.len() > 1 && v[1].priority == v[0].priority {
        let t = v.subrange(1, v.len() as int);
        band_len_bound(t);
        assert forall|i: int| 0 <= i < band_len(v) implies (#[trigger] v[i]).priority
            == v[0].priority by {
            if i > 0 {
                assert(t[i - 1] == v[i]);
            }
        }
        if band_len(v) < v.len() {
            assert(t[band_len(t) as int] == v[band_len(v) as int]);
        }
    }
}

/// How many endpoints at the front share the first one's priority.
fn first_band(rest: &Vec<Endpoint>) -> (n: usize)
    requires
        rest@.len() > 0,
    ensures
        n == band_len(endpoint_models(rest@)),
        0 < n <= rest@.len(),
{
    let ghost m = endpoint_models(rest@);
    let len: usize = rest.len();
    let mut n: usize = 1;
    proof {
        assert(m.subrange(0, len as int) =~= m);
    }
    while n < len && rest[n].priority == rest[n - 1].priority
        invariant
            0 < n <= len == rest@.len(),
            m == endpoint_models(rest@),
            band_len(m) == (n - 1) + band_len(m.subrange(n - 1, len as int)),
        decreases len - n,
    {
        proof {
            let t = m.subrange(n - 1, len as int);
            assert(t[0] == m[n - 1] && t[1] == m[n as int]);
            assert(t.subrange(1, t.len() as int) =~= m.subrange(n as int, len as int));
        }
        n += 1;
    }
    proof {
        let t = m.subrange(n - 1, len as int);
        assert(t[0] == m[n - 1]);
        if n < len {
            assert(t[1] == m[n as int]);
        }
    }
    n
}

/// The sum of the weights of the first `n` endpoints, as far as it can be
/// counted.
fn total_weight(rest: &Vec<Endpoint>, n: usize) -> (total: u64)
    requires
        n <= rest@.len(),
    ensures
        total == counted(weight_sum(endpoint_models(rest@).subrange(0, n as int))),
{
    let ghost m = endpoint_models(rest@);
    let mut total: u64 = 0;
    let mut i: usize = 0;
    proof {
        assert(m.subrange(0, 0) =~= seq![]);
    }
    while i < n
        invariant
            i <= n <= rest@.len(),
            m == endpoint_models(rest@),
            total == counted(weight_sum(m.subrange(0, i as int))),
        decreases n - i,
    {
        proof {
            let next = m.subrange(0, i + 1);
            assert(next.drop_last() =~= m.subrange(0, i as int));
            assert(next.last() == rest@[i as int]@);
        }
        total = total.saturating_add(rest[i].weight as u64);
        i += 1;
    }
    total
}

/// Which of the first `n` endpoints a number drawn below the sum of their
/// weights falls on.
pub fn pick_by_weight(rest: &Vec<Endpoint>, n: usize, pick: u64) -> (chosen: usize)
    requires
        n <= rest@.len(),
        pick < weight_sum(endpoint_models(rest@).subrange(0, n as int)),
    ensures
        falls_on(endpoint_models(rest@).subrange(0, n as int), pick as nat, chosen as int),
{
    let ghost m = endpoint_models(rest@);
    let ghost b = m.subrange(0, n as int);
    let mut left: u64 = pick;
    let mut i: usize = 0;
    proof {
        assert(b.subrange(0, 0) =~= seq![]);
    }
    while i < n
        invariant
            i <= n <= rest@.len(),
            m == endpoint_models(rest@),
            b == m.subrange(0, n as int),
            pick < weight_sum(b),
            weight_sum(b.subrange(0, i as int)) + left == pick,
        decreases n - i,
    {
        let w: u64 = rest[i].weight as u64;
        proof {
            let next = b.subrange(0, i + 1);
            assert(next.drop_last() =~= b.subrange(0, i as int));
            assert(next.last() == rest@[i as int]@);
        }
        if left < w {
            return i;
        }
        left = left - w;
        i += 1;
    }
    proof {
        assert(b.subrange(0, n as int) =~= b);
    }
    // Not reached: the draw is below the sum.
    n
}

/// Endpoints in ascending order of priority, equals in their order.
fn sort_bands(v: &[Endpoint]) -> (out: Vec<Endpoint>)
    ensures
        in_bands(endpoint_models(v@), endpoint_models(out@)),
{
    let ghost m = endpoint_models(v@);
    let mut keys: Vec<u64> = Vec::new();
    let mut i: usize = 0;
    while i < v.len()
        invariant
            i <= v@.len(),
            m == endpoint_models(v@),
            keys@.len() == i,
            forall|j: int| 0 <= j < i ==> #[trigger] keys@[j] == m[j].priority as u64,
        decreases v@.len() - i,
    {
        keys.push(v[i].priority as u64);
        i += 1;
    }
    assert(keys@ =~= priorities(m));
    let p = stable_order(&keys);
    let mut out: Vec<Endpoint> = Vec::new();
    let mut k: usize = 0;
    while k < p.len()
        invariant
            k <= p@.len(),
            m == endpoint_models(v@),
            is_stable_order(p@, priorities(m)),
            out@.len() == k,
            forall|j: int| 0 <= j < k ==> (#[trigger] out@[j])@ == m[p@[j] as int],
        decreases p@.len() - k,
    {
        out.push(v[p[k]].clone());
        k += 1;
    }
    proof {
        assert(endpoint_models(out@) =~= Seq::new(p@.len(), |j: int| m[p@[j] as int]));
    }
    out
}

/// Endpoints in the order a caller should try them, drawn with `rng`.
pub fn order_with(record: &Record, rng: &mut StdRng) -> (out: Vec<Endpoint>)
    ensures
        may_order(endpoints_of(record@), endpoint_models(out@)),
{
    let mut rest = sort_bands(record.endpoints());
    let ghost sorted = endpoint_models(rest@);
    let ghost mut done: Seq<u64> = seq![];
    let mut out: Vec<Endpoint> = Vec::new();
    proof {
        assert forall|fd: Seq<u64>| #[trigger] draws_ok(sorted, fd) implies draws_ok(
            sorted,
            done + fd,
        ) && draw_order(sorted, done + fd) == endpoint_models(out@) + draw_order(sorted, fd) by {
            assert(done + fd =~= fd);
            assert(endpoint_models(out@) + draw_order(sorted, fd) =~= draw_order(sorted, fd));
        }
    }
    while rest.len() > 0
        invariant
            forall|fd: Seq<u64>| #[trigger]
                draws_ok(endpoint_models(rest@), fd) ==> draws_ok(sorted, done + fd) && draw_order(
                    sorted,
                    done + fd,
                ) == endpoint_models(out@) + draw_order(endpoint_models(rest@), fd),
        decreases rest@.len(),
    {
        let ghost m = endpoint_models(rest@);
        let ghost before = endpoint_models(out@);
        let n: usize = first_band(&rest);
        let total: u64 = total_weight(&rest, n);
        let mut pick: u64 = 0;
        let mut at: usize = 0;
        if total > 0 {
            pick = draw_below(rng, total);
            at = pick_by_weight(&rest, n, pick);
            proof {
                let c = next_choice(m, pick);
                assert(falls_on(band(m), pick as nat, at as int));
                falls_on_one(band(m), pick as nat, at as int, c);
            }
        }
        proof {
            assert(next_choice(m, pick) == at);
        }
        let ep = rest.remove(at);
        proof {
            assert(endpoint_models(rest@) =~= m.remove(at as int));
        }
        out.push(ep);
        proof {
            assert(endpoint_models(out@) =~= before.push(m[at as int]));
            let old_done = done;
            done = done.push(pick);
            assert forall|fd: Seq<u64>| #[trigger]
                draws_ok(endpoint_models(rest@), fd) implies draws_ok(sorted, done + fd)
                && draw_order(sorted, done + fd) == endpoint_models(out@) + draw_order(
                endpoint_models(rest@),
                fd,
            ) by {
                let all = seq![pick] + fd;
                assert(all.subrange(1, all.len() as int) =~= fd);
                assert(all[0] == pick);
                draws_ok_len(endpoint_models(rest@), fd);
                assert(draws_ok(m, all));
                assert(old_done + all =~= done + fd);
                assert(before + draw_order(m, all) =~= endpoint_models(out@) + draw_order(
                    endpoint_models(rest@),
                    fd,
                ));
            }
        }
    }
    proof {
        let fd = Seq::<u64>::empty();
        assert(draws_ok(endpoint_models(rest@), fd));
        assert(draws_ok(sorted, done + fd));
        assert(endpoint_models(out@) + draw_order(endpoint_models(rest@), fd) =~= endpoint_models(
            out@,
        ));
    }
    out
}

proof fn draws_ok_len(rest: Seq<EndpointModel>, draws: Seq<u64>)
    requires
        draws_ok(rest, draws),
    ensures
        draws.len() == rest.len(),
{
}

/// Endpoints in the order a caller should try them.
pub fn order_endpoints(record: &Record) -> (out: Vec<Endpoint>)
    ensures
        may_order(endpoints_of(record@), endpoint_models(out@)),
{
    let mut rng = fresh_rng();
    order_with(record, &mut rng)
}

// ---------------------------------------------------------------------------
// Laws
// ---------------------------------------------------------------------------

/// Lower priorities come first.
pub open spec fn by_ascending_priority(v: Seq<EndpointModel>) -> bool {
    forall|i: int, j: int|
        0 <= i < j < v.len() ==> (#[trigger] v[i]).priority <= (#[trigger] v[j]).priority
}

/// Within a priority, nothing with weight comes after something without.
pub open spec fn weightless_last(v: Seq<EndpointModel>) -> bool {
    forall|i: int, j: int|
        0 <= i < j < v.len() && (#[trigger] v[i]).priority == (#[trigger] v[j]).priority
            && v[i].weight == 0 ==> v[j].weight == 0
}

proof fn removal_keeps_order(v: Seq<EndpointModel>, at: int)
    requires
        by_ascending_priority(v),
        0 <= at < v.len(),
    ensures
        by_ascending_priority(v.remove(at)),
{
    let w = v.remove(at);
    assert forall|i: int, j: int| 0 <= i < j < w.len() implies (#[trigger] w[i]).priority <= (
    #[trigger] w[j]).priority by {
        let a = if i < at { i } else { i + 1 };
        let b = if j < at { j } else { j + 1 };
        assert(w[i] == v[a] && w[j] == v[b]);
    }
}

/// Draws lose and repeat nothing.
proof fn draws_keep_everything(rest: Seq<EndpointModel>, draws: Seq<u64>)
    requires
        draws_ok(rest, draws),
    ensures
        draw_order(rest, draws).to_multiset() == rest.to_multiset(),
    decreases rest.len(),
{
    if rest.len() > 0 {
        let i = next_choice(rest, draws[0]);
        let tail = draw_order(rest.remove(i), draws.subrange(1, draws.len() as int));
        draws_keep_everything(rest.remove(i), draws.subrange(1, draws.len() as int));
        assert(rest.remove(i).to_multiset() =~= rest.to_multiset().remove(rest[i]));
        lemma_multiset_commutative(seq![rest[i]], tail);
        assert(seq![rest[i]].to_multiset() =~= Multiset::empty().insert(rest[i])) by {
            assert(seq![rest[i]] =~= Seq::<EndpointModel>::empty().push(rest[i]));
        }
        assert(rest.to_multiset().count(rest[i]) > 0) by {
            assert(rest.contains(rest[i]));
        }
        assert(draw_order(rest, draws).to_multiset() =~= rest.to_multiset());
    } else {
        assert(rest =~= seq![]);
    }
}

proof fn weight_sum_zero(v: Seq<EndpointModel>, i: int)
    requires
        weight_sum(v) == 0,
        0 <= i < v.len(),
    ensures
        v[i].weight == 0,
    decreases v.len(),
{
    if i < v.len() - 1 {
        weight_sum_zero(v.drop_last(), i);
    }
}

proof fn draws_keep_bands(rest: Seq<EndpointModel>, draws: Seq<u64>)
    requires
        draws_ok(rest, draws),
        by_ascending_priority(rest),
    ensures
        by_ascending_priority(draw_order(rest, draws)),
        weightless_last(draw_order(rest, draws)),
    decreases rest.len(),
{
    if rest.len() > 0 {
        let i = next_choice(rest, draws[0]);
        let ds = draws.subrange(1, draws.len() as int);
        let left = rest.remove(i);
        let tail = draw_order(left, ds);
        let out = draw_order(rest, draws);
        removal_keeps_order(rest, i);
        draws_keep_bands(left, ds);
        draws_keep_everything(left, ds);
        band_len_bound(rest);
        let n = band_len(rest) as int;
        let b = band(rest);
        // The chosen one is of the first band.
        if weight_sum(b) > 0 {
            a_pick_falls_somewhere(b, draws[0] as nat);
            assert(falls_on(b, draws[0] as nat, i));
            assert(b.subrange(0, i + 1).drop_last() =~= b.subrange(0, i));
            assert(b[i] == rest[i]);
            assert(rest[i].weight > 0);
        }
        assert(rest[i].priority == rest[0].priority);
        assert forall|j: int| 0 <= j < tail.len() implies (#[trigger] tail[j]).priority
            >= rest[i].priority && (tail[j].priority == rest[i].priority && rest[i].weight == 0
            ==> tail[j].weight == 0) by {
            assert(tail.contains(tail[j]));
            assert(tail.to_multiset().count(tail[j]) > 0);
            assert(left.contains(tail[j]));
            let q = choose|q: int| 0 <= q < left.len() && left[q] == tail[j];
            let r = if q < i { q } else { q + 1 };
            assert(rest[r] == tail[j]);
            assert(rest[0].priority <= rest[r].priority) by {
                if r > 0 {
                    assert(rest[0].priority <= rest[r].priority);
                }
            }
            if rest[r].priority == rest[0].priority && rest[i].weight == 0 {
                if r >= n {
                    if n < r {
                        assert(rest[n].priority <= rest[r].priority);
                    }
                    assert(rest[0].priority <= rest[n].priority);
                }
                assert(b[r] == rest[r]);
                weight_sum_zero(b, r);
            }
        }
        assert(out =~= seq![rest[i]] + tail);
        assert forall|x: int, y: int| 0 <= x < y < out.len() implies (#[trigger] out[x]).priority
            <= (#[trigger] out[y]).priority && (out[x].priority == out[y].priority && out[x].weight
            == 0 ==> out[y].weight == 0) by {
            assert(out[y] == tail[y - 1]);
            if x > 0 {
                assert(out[x] == tail[x - 1]);
            }
        }
    }
}

proof fn a_pick_falls_somewhere(v: Seq<EndpointModel>, pick: nat)
    requires
        pick < weight_sum(v),
    ensures
        exists|i: int| falls_on(v, pick, i),
    decreases v.len(),
{
    if v.len() > 0 {
        let t = v.drop_last();
        let n = v.len() - 1;
        assert(v.subrange(0, n) =~= t);
        assert(v.subrange(0, v.len() as int) =~= v);
        if pick < weight_sum(t) {
            a_pick_falls_somewhere(t, pick);
            let i = choose|i: int| falls_on(t, pick, i);
            assert(t.subrange(0, i) =~= v.subrange(0, i));
            assert(t.subrange(0, i + 1) =~= v.subrange(0, i + 1));
            assert(falls_on(v, pick, i));
        } else {
            assert(falls_on(v, pick, n));
        }
    }
}

proof fn bands_keep_everything(v: Seq<EndpointModel>, out: Seq<EndpointModel>)
    requires
        in_bands(v, out),
    ensures
        out.to_multiset() == v.to_multiset(),
        by_ascending_priority(out),
{
    let p = choose|p: Seq<usize>| #[trigger]
        is_stable_order(p, priorities(v)) && out == Seq::new(p.len(), |i: int| v[p[i] as int]);
    positions_keep_everything(v, p, out, priorities(v));
    assert forall|i: int, j: int| 0 <= i < j < out.len() implies (#[trigger] out[i]).priority <= (
    #[trigger] out[j]).priority by {
        assert(ranks_before(priorities(v), p[i], p[j]));
    }
}

/// Endpoints picked by position, each position once, are the same endpoints.
proof fn positions_keep_everything(
    v: Seq<EndpointModel>,
    p: Seq<usize>,
    out: Seq<EndpointModel>,
    keys: Seq<u64>,
)
    requires
        is_stable_order(p, keys),
        keys.len() == v.len(),
        out == Seq::new(p.len(), |i: int| v[p[i] as int]),
    ensures
        out.to_multiset() == v.to_multiset(),
{
    let q = Seq::new(p.len(), |i: int| p[i] as int);
    assert(q.no_duplicates()) by {
        assert forall|i: int, j: int| 0 <= i < q.len() && 0 <= j < q.len() && i != j implies q[i]
            != q[j] by {
            if i < j {
                assert(ranks_before(keys, p[i], p[j]));
            } else {
                assert(ranks_before(keys, p[j], p[i]));
            }
        }
    }
    permuted_multiset(v, q, out);
}

/// Taking the elements of `v` at distinct positions, as many as there are,
/// takes them all.
proof fn permuted_multiset(v: Seq<EndpointModel>, q: Seq<int>, out: Seq<EndpointModel>)
    requires
        q.len() == v.len(),
        out.len() == v.len(),
        q.no_duplicates(),
        forall|i: int| 0 <= i < q.len() ==> 0 <= #[trigger] q[i] < v.len(),
        forall|i: int| 0 <= i < q.len() ==> out[i] == v[#[trigger] q[i]],
    ensures
        out.to_multiset() == v.to_multiset(),
    decreases v.len(),
{
    if v.len() == 0 {
        assert(out =~= v);
    } else {
        let n = v.len() - 1;
        let at = q[n];
        let w = v.remove(at);
        let r = Seq::new(
            n as nat,
            |i: int|
                if q[i] < at {
                    q[i]
                } else {
                    q[i] - 1
                },
        );
        assert forall|i: int| 0 <= i < r.len() implies 0 <= #[trigger] r[i] < w.len()
            && out.drop_last()[i] == w[r[i]] by {
            assert(q[i] != q[n]);
        }
        assert(r.no_duplicates()) by {
            assert forall|i: int, j: int|
                0 <= i < r.len() && 0 <= j < r.len() && i != j implies r[i] != r[j] by {
                assert(q[i] != q[j]);
                assert(q[i] != q[n] && q[j] != q[n]);
            }
        }
        permuted_multiset(w, r, out.drop_last());
        assert(out =~= out.drop_last().push(v[at]));
        assert(w.to_multiset() =~= v.to_multiset().remove(v[at]));
        assert(v.to_multiset().count(v[at]) > 0) by {
            assert(v.contains(v[at]));
        }
        assert(out.to_multiset() =~= v.to_multiset());
    }
}

/// However chance falls, every endpoint appears exactly as often as the record
/// lists it, lower priorities come first, and within a priority the endpoints
/// without weight come last.
pub proof fn ordering_keeps_bands_and_endpoints(
    v: Seq<EndpointModel>,
    out: Seq<EndpointModel>,
)
    requires
        may_order(v, out),
    ensures
        out.to_multiset() == v.to_multiset(),
        out.len() == v.len(),
        by_ascending_priority(out),
        weightless_last(out),
{
    let (sorted, draws) = choose|sorted: Seq<EndpointModel>, draws: Seq<u64>|
        #![trigger in_bands(v, sorted), draws_ok(sorted, draws)]
        in_bands(v, sorted) && draws_ok(sorted, draws) && out == draw_order(sorted, draws);
    bands_keep_everything(v, sorted);
    draws_keep_everything(sorted, draws);
    draws_keep_bands(sorted, draws);
    assert(out.len() == out.to_multiset().len());
    assert(v.len() == v.to_multiset().len());
}

/// An endpoint of a priority, without weight.
pub open spec fn is_weightless(e: EndpointModel, priority: u16) -> bool {
    e.priority == priority && e.weight == 0
}

/// The endpoints of a priority that have no weight, in order.
pub open spec fn weightless_in(v: Seq<EndpointModel>, priority: u16) -> Seq<EndpointModel> {
    v.filter(|e: EndpointModel| is_weightless(e, priority))
}

proof fn weightless_of_joined(a: Seq<EndpointModel>, b: Seq<EndpointModel>, priority: u16)
    ensures
        weightless_in(a + b, priority) == weightless_in(a, priority) + weightless_in(b, priority),
{
    Seq::filter_distributes_over_add(a, b, |e: EndpointModel| is_weightless(e, priority));
}

proof fn weightless_of_one(e: EndpointModel, priority: u16)
    ensures
        weightless_in(seq![e], priority) == (if is_weightless(e, priority) {
            seq![e]
        } else {
            seq![]
        }),
{
    reveal(Seq::filter);
    let one = seq![e];
    assert(one.drop_last() =~= seq![]);
    assert(weightless_in(seq![], priority) =~= seq![]);
    assert(weightless_in(one, priority) =~= if is_weightless(e, priority) {
        seq![e]
    } else {
        seq![]
    });
}

proof fn weightless_of_none(v: Seq<EndpointModel>, priority: u16)
    requires
        forall|i: int| 0 <= i < v.len() ==> !is_weightless(#[trigger] v[i], priority),
    ensures
        weightless_in(v, priority) == Seq::<EndpointModel>::empty(),
    decreases v.len(),
{
    reveal(Seq::filter);
    if v.len() > 0 {
        weightless_of_none(v.drop_last(), priority);
    } else {
        assert(weightless_in(v, priority) =~= seq![]);
    }
}

/// What is left when one is taken out.
proof fn weightless_around(v: Seq<EndpointModel>, at: int, priority: u16)
    requires
        0 <= at < v.len(),
    ensures
        weightless_in(v, priority) == weightless_in(v.subrange(0, at), priority) + weightless_in(
            seq![v[at]],
            priority,
        ) + weightless_in(v.subrange(at + 1, v.len() as int), priority),
        weightless_in(v.remove(at), priority) == weightless_in(v.subrange(0, at), priority)
            + weightless_in(v.subrange(at + 1, v.len() as int), priority),
{
    let a = v.subrange(0, at);
    let b = v.subrange(at + 1, v.len() as int);
    assert(v =~= a + seq![v[at]] + b);
    assert(v.remove(at) =~= a + b);
    weightless_of_joined(a + seq![v[at]], b, priority);
    weightless_of_joined(a, seq![v[at]], priority);
    weightless_of_joined(a, b, priority);
}

proof fn draws_keep_weightless_order(
    rest: Seq<EndpointModel>,
    draws: Seq<u64>,
    priority: u16,
)
    requires
        draws_ok(rest, draws),
    ensures
        weightless_in(draw_order(rest, draws), priority) == weightless_in(rest, priority),
    decreases rest.len(),
{
    if rest.len() > 0 {
        let i = next_choice(rest, draws[0]);
        let ds = draws.subrange(1, draws.len() as int);
        let left = rest.remove(i);
        let tail = draw_order(left, ds);
        draws_keep_weightless_order(left, ds, priority);
        weightless_around(rest, i, priority);
        weightless_of_one(rest[i], priority);
        weightless_of_joined(seq![rest[i]], tail, priority);
        assert(draw_order(rest, draws) =~= seq![rest[i]] + tail);
        let b = band(rest);
        band_len_bound(rest);
        if weight_sum(b) > 0 {
            a_pick_falls_somewhere(b, draws[0] as nat);
            assert(falls_on(b, draws[0] as nat, i));
            assert(b.subrange(0, i + 1).drop_last() =~= b.subrange(0, i));
            assert(b[i] == rest[i]);
            assert(rest[i].weight > 0);
        } else {
            assert(i == 0);
            weightless_of_none(rest.subrange(0, 0), priority);
        }
        assert(weightless_in(draw_order(rest, draws), priority) =~= weightless_in(rest, priority));
    } else {
        assert(draw_order(rest, draws) =~= rest);
    }
}

/// Taking elements by position, each position once, keeps the order of those
/// whose positions ascend.
proof fn positions_keep_weightless_order(
    v: Seq<EndpointModel>,
    q: Seq<int>,
    out: Seq<EndpointModel>,
    priority: u16,
)
    requires
        q.len() == v.len(),
        out.len() == v.len(),
        q.no_duplicates(),
        forall|i: int| 0 <= i < q.len() ==> 0 <= #[trigger] q[i] < v.len(),
        forall|i: int| 0 <= i < q.len() ==> out[i] == v[#[trigger] q[i]],
        forall|k: int| 0 <= k < v.len() ==> #[trigger] q.contains(k),
        forall|i: int, j: int|
            0 <= i < j < q.len() && is_weightless(out[i], priority) && is_weightless(
                out[j],
                priority,
            ) ==> #[trigger] q[i] < #[trigger] q[j],
    ensures
        weightless_in(out, priority) == weightless_in(v, priority),
    decreases v.len(),
{
    if v.len() == 0 {
        assert(out =~= v);
    } else {
        let n = v.len() - 1;
        let w = v.drop_last();
        assert(q.contains(n));
        let at = choose|i: int| 0 <= i < q.len() && q[i] == n;
        let r = q.remove(at);
        let rest = out.remove(at);
        assert forall|i: int| 0 <= i < r.len() implies 0 <= #[trigger] r[i] < w.len() && rest[i]
            == w[r[i]] by {
            let a = if i < at { i } else { i + 1 };
            assert(r[i] == q[a] && rest[i] == out[a]);
            assert(q[a] != q[at]);
        }
        assert(r.no_duplicates()) by {
            assert forall|i: int, j: int|
                0 <= i < r.len() && 0 <= j < r.len() && i != j implies r[i] != r[j] by {
                let a = if i < at { i } else { i + 1 };
                let b = if j < at { j } else { j + 1 };
                assert(r[i] == q[a] && r[j] == q[b]);
            }
        }
        assert forall|k: int| 0 <= k < w.len() implies #[trigger] r.contains(k) by {
            assert(q.contains(k));
            let a = choose|i: int| 0 <= i < q.len() && q[i] == k;
            let i = if a < at { a } else { a - 1 };
            assert(r[i] == k);
        }
        assert forall|i: int, j: int|
            0 <= i < j < r.len() && is_weightless(rest[i], priority) && is_weightless(
                rest[j],
                priority,
            ) implies #[trigger] r[i] < #[trigger] r[j] by {
            let a = if i < at { i } else { i + 1 };
            let b = if j < at { j } else { j + 1 };
            assert(r[i] == q[a] && r[j] == q[b]);
            assert(rest[i] == out[a] && rest[j] == out[b]);
        }
        positions_keep_weightless_order(w, r, rest, priority);
        weightless_around(out, at, priority);
        weightless_of_one(out[at], priority);
        weightless_of_one(v[n], priority);
        assert(v =~= w + seq![v[n]]);
        weightless_of_joined(w, seq![v[n]], priority);
        assert(out[at] == v[n]);
        if is_weightless(v[n], priority) {
            let after = out.subrange(at + 1, out.len() as int);
            assert forall|i: int| 0 <= i < after.len() implies !is_weightless(
                #[trigger] after[i],
                priority,
            ) by {
                let j = at + 1 + i;
                assert(after[i] == out[j]);
                assert(q[j] < v.len());
                if is_weightless(out[j], priority) {
                    assert(q[at] < q[j]);
                }
            }
            weightless_of_none(after, priority);
        }
        assert(weightless_in(out, priority) =~= weightless_in(v, priority));
    }
}

/// However chance falls, the endpoints of a priority that have no weight come
/// in the order in which the record lists them.
pub proof fn weightless_endpoints_keep_their_order(
    v: Seq<EndpointModel>,
    out: Seq<EndpointModel>,
    priority: u16,
)
    requires
        may_order(v, out),
    ensures
        weightless_in(out, priority) == weightless_in(v, priority),
{
    let (sorted, draws) = choose|sorted: Seq<EndpointModel>, draws: Seq<u64>|
        #![trigger in_bands(v, sorted), draws_ok(sorted, draws)]
        in_bands(v, sorted) && draws_ok(sorted, draws) && out == draw_order(sorted, draws);
    draws_keep_weightless_order(sorted, draws, priority);
    let keys = priorities(v);
    let p = choose|p: Seq<usize>| #[trigger]
        is_stable_order(p, keys) && sorted == Seq::new(p.len(), |i: int| v[p[i] as int]);
    let q = Seq::new(p.len(), |i: int| p[i] as int);
    assert(q.no_duplicates()) by {
        assert forall|i: int, j: int| 0 <= i < q.len() && 0 <= j < q.len() && i != j implies q[i]
            != q[j] by {
            if i < j {
                assert(ranks_before(keys, p[i], p[j]));
            } else {
                assert(ranks_before(keys, p[j], p[i]));
            }
        }
    }
    q.unique_seq_to_set();
    lemma_int_range(0, v.len() as int);
    assert(q.to_set().subset_of(set_int_range(0, v.len() as int)));
    seq_to_set_is_finite(q);
    lemma_subset_equality(q.to_set(), set_int_range(0, v.len() as int));
    assert forall|k: int| 0 <= k < v.len() implies #[trigger] q.contains(k) by {
        assert(q.to_set().contains(k));
    }
    assert forall|i: int, j: int|
        0 <= i < j < q.len() && is_weightless(sorted[i], priority) && is_weightless(
            sorted[j],
            priority,
        ) implies #[trigger] q[i] < #[trigger] q[j] by {
        assert(ranks_before(keys, p[i], p[j]));
    }
    positions_keep_weightless_order(v, q, sorted, priority);
}

} // verus!
