//! Laws of the client: what its cache answers, which replies it takes, where
//! a walk goes, and in which order addresses are tried.

use vstd::prelude::*;

use crate::addr::{AddrModel, is_ip_text};
use crate::cache::{EntryModel, answering, asked, cache_hit, negative_until};
use crate::dial::{
    DnsAnswer, candidates, marked, planned_resolution, proven, stagger, unproven,
    unproven_answers_are_never_used, validated_addresses,
};
use crate::endpoint::{EndpointModel, endpoint_models};
use crate::error::ErrorModel;
use crate::ip::IpAddr;
use crate::key::{PubKey, key_len};
use crate::link::{LinkOutcomeModel, LinkPhase, exchanged_in, phase_at_start, task_in};
use crate::order::{is_stable_order, ranks_before};
use crate::protocol::{
    ErrorCode, Request, RequestModel, ResponseModel, request_bytes, request_decoded,
    request_round_trip, request_type,
};
use crate::record::{
    BodyModel, SignedModel, answer_verified, endpoints_of, in_preference_order, preference,
    preferences,
};
use crate::resolver::{
    ResolverModel, SeenModel, answer_taken, cached_answer, live_only, lookup_asked, rank_noted,
};
use crate::select::{
    band, band_len, by_ascending_priority, draw_order, draws_ok, falls_on, next_choice,
    ordering_keeps_bands_and_endpoints, weight_sum,
};
use crate::store::admitted;
use crate::tally::{
    TallyModel, identity_listing, listing_checked, listings_checked, no_answer, nothing_tallied,
    publish_asked, publish_result, tallied,
};
use crate::walk::{ServiceLocation, WalkModel, WalkOutcome, is_location, key_seq, walk_step};

verus! {

broadcast use key_len;

// ---------------------------------------------------------------------------
// The cache
// ---------------------------------------------------------------------------

/// A cache answers with a record it was given for as long as that record
/// lives, with an absence until its time, and with nothing else.
pub proof fn what_a_cache_answers(m: Map<Seq<u8>, EntryModel>, key: Seq<u8>, now: u64)
    requires
        now < 0xffff_ffff_ffff_ffff,
    ensures
        !m.dom().contains(key) ==> cache_hit(m, key, now) is None,
        m.dom().contains(key) ==> match m[key] {
            EntryModel::Found(s) => if s.record.body is Live && now >= s.record.issued_at
                + s.record.ttl {
                cache_hit(m, key, now) is None
            } else {
                cache_hit(m, key, now) == Some(Some(s))
            },
            EntryModel::Missing { until } => if now < until {
                cache_hit(m, key, now) == Some(None::<SignedModel>)
            } else {
                cache_hit(m, key, now) is None
            },
        },
{
}

/// An absence is remembered for half a minute.
pub proof fn an_absence_lasts_half_a_minute(
    m: Map<Seq<u8>, EntryModel>,
    key: Seq<u8>,
    now: u64,
    later: u64,
)
    requires
        now + 30 <= 0xffff_ffff_ffff_ffff,
    ensures
        cache_hit(
            m.insert(key, EntryModel::Missing { until: negative_until(now) }),
            key,
            later,
        ) == Some(None::<SignedModel>) <==> later < now + 30,
{
}

/// Asking a cache forgets the key when it cannot be answered any more, and
/// touches nothing else.
pub proof fn asking_forgets_only_what_lapsed(
    m: Map<Seq<u8>, EntryModel>,
    key: Seq<u8>,
    other: Seq<u8>,
    now: u64,
)
    ensures
        other != key ==> (asked(m, key, now).dom().contains(other) <==> m.dom().contains(other)),
        asked(m, key, now).dom().contains(key) <==> cache_hit(m, key, now) is Some,
        asked(m, key, now).dom().contains(other) ==> asked(m, key, now)[other] == m[other],
{
}

/// A sweep of a cache keeps just what it can still answer.
pub proof fn a_cache_sweep_keeps_what_answers(
    m: Map<Seq<u8>, EntryModel>,
    key: Seq<u8>,
    now: u64,
)
    ensures
        answering(m, now).dom().contains(key) <==> cache_hit(m, key, now) is Some,
        answering(m, now).dom().contains(key) ==> answering(m, now)[key] == m[key],
{
}

// ---------------------------------------------------------------------------
// Replies
// ---------------------------------------------------------------------------

/// What a client has seen of a key binds it: a record agrees when the key is
/// new, or when it comes from the same identity and neither revives a retired
/// key nor has a lower serial than was seen. Then it is what was seen last.
pub proof fn what_agrees_with_the_past(marks: Map<Seq<u8>, SeenModel>, s: SignedModel)
    ensures
        rank_noted(marks, s).0 is Ok <==> {
            let key = s.record.key;
            marks.dom().contains(key) ==> {
                &&& marks[key].identity == s.record.delegation.identity
                &&& marks[key].rank.terminal ==> !(s.record.body is Live) && s.record.serial
                    >= marks[key].rank.serial
                &&& !marks[key].rank.terminal ==> !(s.record.body is Live) || s.record.serial
                    >= marks[key].rank.serial
            }
        },
        rank_noted(marks, s).0 is Ok ==> {
            let after = rank_noted(marks, s).1;
            &&& after.dom().contains(s.record.key)
            &&& after[s.record.key].identity == s.record.delegation.identity
            &&& after[s.record.key].rank.serial == s.record.serial
            &&& after[s.record.key].rank.terminal == !(s.record.body is Live)
            &&& forall|k: Seq<u8>|
                k != s.record.key ==> (#[trigger] after.dom().contains(k) <==> marks.dom().contains(
                    k,
                )) && (marks.dom().contains(k) ==> after[k] == marks[k])
        },
        rank_noted(marks, s).0 is Err ==> rank_noted(marks, s).1 == marks,
        marks.dom().contains(s.record.key) && marks[s.record.key].identity
            == s.record.delegation.identity ==> (rank_noted(marks, s).0 is Err ==> rank_noted(
            marks,
            s,
        ).0 matches Err(ErrorModel::Downgrade(_))),
{
}

/// A reply to a lookup is taken when it is a record that passes every check
/// and agrees with the past, or says that there is none; and then its record
/// is the answer, along with the record of a successor as it was sent.
pub proof fn which_replies_are_taken(m: ResolverModel, key: Seq<u8>, reply: ResponseModel, now: u64)
    ensures
        match reply {
            ResponseModel::Answer { record: Some(s), successor } => {
                &&& answer_taken(m, key, reply, now).0 is Ok <==> answer_verified(s, key, now) is Ok
                    && rank_noted(m.marks, s).0 is Ok
                &&& answer_taken(m, key, reply, now).0 matches Ok((found, along)) ==> found == Some(
                    s,
                ) && along == successor
            },
            ResponseModel::Answer { record: None, .. } => answer_taken(m, key, reply, now).0 == Ok::<
                (Option<SignedModel>, Option<SignedModel>),
                ErrorModel,
            >((None, None)),
            _ => answer_taken(m, key, reply, now).0 is Err,
        },
        answer_taken(m, key, reply, now).1.config == m.config,
        answer_taken(m, key, reply, now).0 is Err ==> answer_taken(m, key, reply, now).1 == m,
{
}

/// An answer that was taken is remembered, when answers are cached at all: the
/// record for as long as it lives, an absence for half a minute; and nothing
/// else in the cache changes.
pub proof fn answers_are_remembered(
    m: ResolverModel,
    key: Seq<u8>,
    reply: ResponseModel,
    now: u64,
    later: u64,
    other: Seq<u8>,
)
    requires
        answer_taken(m, key, reply, now).0 is Ok,
        now + 30 <= 0xffff_ffff_ffff_ffff,
        later < 0xffff_ffff_ffff_ffff,
    ensures
        ({
            let after = answer_taken(m, key, reply, now).1;
            let found = answer_taken(m, key, reply, now).0->Ok_0.0;
            &&& !m.config.cache ==> after.cache == m.cache
            &&& other != key ==> cache_hit(after.cache, other, later) == cache_hit(
                m.cache,
                other,
                later,
            )
            &&& m.config.cache ==> match found {
                Some(s) => if s.record.body is Live && later >= s.record.issued_at + s.record.ttl {
                    cache_hit(after.cache, key, later) is None
                } else {
                    cache_hit(after.cache, key, later) == Some(Some(s))
                },
                None => cache_hit(after.cache, key, later) == Some(None::<SignedModel>) <==> later
                    < now + 30,
            }
        }),
{
}

/// A lookup for a live record gives one back as it is, nothing for nothing,
/// and an error for a key that was retired.
pub proof fn only_live_records_pass(r: Option<SignedModel>)
    ensures
        live_only(r) is Ok <==> (r matches Some(s) ==> s.record.body is Live),
        live_only(r) matches Ok(o) ==> o == r,
        r matches Some(s) ==> (s.record.body is Revoked ==> live_only(r) matches Err(
            ErrorModel::Revoked { .. },
        )) && (s.record.body is Superseded ==> live_only(r) matches Err(
            ErrorModel::Superseded { .. },
        )),
{
}

// ---------------------------------------------------------------------------
// Walks
// ---------------------------------------------------------------------------

/// Where a walk goes: nowhere without a record; to its end at a live one; to
/// the successor where there is one, as long as the walk was not there before
/// and has not followed eight already; and it fails at a revoked key.
pub proof fn where_a_walk_goes(
    m: ResolverModel,
    w: WalkModel,
    record: Option<SignedModel>,
    successor: Option<SignedModel>,
    now: u64,
)
    ensures
        ({
            let (outcome, after) = walk_step(m, w, record, successor, now);
            match record {
                None => (outcome matches WalkOutcome::Failed(ErrorModel::Unpublished(_))) && after
                    == m,
                Some(s) => match s.record.body {
                    BodyModel::Live { .. } => outcome == WalkOutcome::Reached(s) && after == m,
                    BodyModel::Revoked { .. } => (outcome matches WalkOutcome::Failed(
                        ErrorModel::Revoked { .. },
                    )) && after == m,
                    BodyModel::Superseded { successor: next, .. } => {
                        &&& outcome is Moved <==> next != w.current && !w.chain.contains(next)
                            && w.chain.len() < 8
                        &&& !(outcome is Moved) ==> (outcome matches WalkOutcome::Failed(
                            ErrorModel::SupersedeChain(_),
                        ))
                        &&& outcome matches WalkOutcome::Moved(v) ==> v.current == next
                            && v.requested == w.requested && v.chain == w.chain.push(w.current)
                    },
                },
            }
        }),
{
}

/// A record sent along with a tombstone saves a question when it passes every
/// check for the key the tombstone names and agrees with the past; then it is
/// remembered as any other answer. Otherwise it is as if it had not been sent.
pub proof fn what_is_sent_along_is_used(
    m: ResolverModel,
    w: WalkModel,
    s: SignedModel,
    next: Seq<u8>,
    t: SignedModel,
    now: u64,
)
    requires
        s.record.body matches BodyModel::Superseded { successor, .. } && successor == next,
        walk_step(m, w, Some(s), Some(t), now).0 is Moved,
    ensures
        ({
            let (outcome, after) = walk_step(m, w, Some(s), Some(t), now);
            let good = answer_verified(t, next, now) is Ok && rank_noted(m.marks, t).0 is Ok;
            &&& outcome->Moved_0.prefetched == if good {
                Some(t)
            } else {
                None
            }
            &&& !good ==> after == m
            &&& good ==> after.marks == rank_noted(m.marks, t).1 && after.config == m.config
            &&& good && m.config.cache ==> after.cache == m.cache.insert(
                t.record.key,
                EntryModel::Found(t),
            )
            &&& walk_step(m, w, Some(s), None, now).0->Moved_0.prefetched is None
        }),
{
}

// ---------------------------------------------------------------------------
// Many servers
// ---------------------------------------------------------------------------

/// A server that takes the record is counted as such; any other reply is an
/// error, and is stale only when it says so.
pub proof fn how_replies_are_tallied(
    t: TallyModel,
    server: AddrModel,
    reply: std::result::Result<ResponseModel, ErrorModel>,
)
    ensures
        tallied(t, server, reply).serial == t.serial,
        (reply matches Ok(ResponseModel::Published { .. })) ==> tallied(t, server, reply).accepted
            && tallied(t, server, reply).errors == t.errors && tallied(t, server, reply).stale_only
            == t.stale_only,
        !(reply matches Ok(ResponseModel::Published { .. })) ==> {
            &&& tallied(t, server, reply).accepted == t.accepted
            &&& tallied(t, server, reply).errors.len() == t.errors.len() + 1
            &&& tallied(t, server, reply).errors.drop_last() == t.errors
            &&& tallied(t, server, reply).stale_only <==> t.stale_only && (reply matches Ok(
                ResponseModel::Error { code: ErrorCode::Stale, .. },
            ))
        },
{
    if !(reply matches Ok(ResponseModel::Published { .. })) {
        assert(tallied(t, server, reply).errors.drop_last() =~= t.errors);
    }
}

/// Without a single reply nobody took the record.
pub proof fn nobody_asked_is_nobody_took(serial: u64)
    ensures
        publish_result(nothing_tallied(serial)) matches Err(ErrorModel::NoServer(_)),
{
}

/// A record of a listing passes every check and was issued by the identity.
pub open spec fn stands_under(s: SignedModel, identity: Seq<u8>, now: u64) -> bool {
    answer_verified(s, s.record.key, now) is Ok && s.record.delegation.identity == identity
}

proof fn all_records_stand(v: Seq<SignedModel>, identity: Seq<u8>, now: u64)
    ensures
        listings_checked(v, identity, now) is Ok <==> forall|i: int|
            0 <= i < v.len() ==> stands_under(#[trigger] v[i], identity, now),
    decreases v.len(),
{
    if v.len() > 0 {
        let t = v.drop_last();
        let n = v.len() - 1;
        all_records_stand(t, identity, now);
        assert(listing_checked(v[n], identity, now) is Ok <==> stands_under(v[n], identity, now));
        if forall|i: int| 0 <= i < v.len() ==> stands_under(#[trigger] v[i], identity, now) {
            assert forall|i: int| 0 <= i < t.len() implies stands_under(
                #[trigger] t[i],
                identity,
                now,
            ) by {
                assert(t[i] == v[i]);
            }
        }
        if listings_checked(v, identity, now) is Ok {
            assert forall|i: int| 0 <= i < v.len() implies stands_under(
                #[trigger] v[i],
                identity,
                now,
            ) by {
                if i < n {
                    assert(t[i] == v[i]);
                }
            }
        }
    }
}

/// A listing under an identity stands when each of its records passes every
/// check and was issued by that identity; and then it is given in full.
pub proof fn when_a_listing_stands(v: Seq<SignedModel>, complete: bool, identity: Seq<u8>, now: u64)
    ensures
        identity_listing(ResponseModel::Records { records: v, complete }, identity, now) is Ok <==> (
        forall|i: int| 0 <= i < v.len() ==> stands_under(#[trigger] v[i], identity, now)),
        identity_listing(ResponseModel::Records { records: v, complete }, identity, now) matches Ok(
            given,
        ) ==> given == v,
{
    all_records_stand(v, identity, now);
}

/// An exchange that succeeds is the answer, whatever the connection; one that
/// fails is the end of it, unless the connection was one that had been kept.
pub proof fn what_an_exchange_comes_to(
    p: LinkPhase,
    reply: std::result::Result<ResponseModel, ErrorModel>,
)
    ensures
        reply matches Ok(r) ==> exchanged_in(p, reply).0 == LinkOutcomeModel::Answered(r),
        reply matches Err(e) ==> (if p is Kept {
            exchanged_in(p, reply).0 is Redial && exchanged_in(p, reply).1 is Dialing
        } else {
            exchanged_in(p, reply).0 == LinkOutcomeModel::Failed(e)
        }),
        task_in(LinkPhase::Kept) is Exchange,
        task_in(LinkPhase::Fresh) is Exchange,
        task_in(LinkPhase::Dialing) is Dial,
{
}

// ---------------------------------------------------------------------------
// Endpoints
// ---------------------------------------------------------------------------

/// The weights of two lists add up, and that of one endpoint is its own.
pub proof fn weights_add_up(a: Seq<EndpointModel>, b: Seq<EndpointModel>)
    ensures
        weight_sum(a + b) == weight_sum(a) + weight_sum(b),
        a.len() == 1 ==> weight_sum(a) == a[0].weight,
        a.len() == 0 ==> weight_sum(a) == 0,
    decreases b.len(),
{
    if a.len() == 1 {
        assert(weight_sum(a.drop_last()) == 0);
    }
    if b.len() == 0 {
        assert(a + b =~= a);
    } else {
        assert((a + b).drop_last() =~= a + b.drop_last());
        weights_add_up(a, b.drop_last());
    }
}

/// Chance is fair: the picks that fall on an endpoint are as many as it has
/// weight, one after another, and each is below the sum of all weights.
pub proof fn an_endpoint_is_drawn_by_its_weight(v: Seq<EndpointModel>, i: int)
    requires
        0 <= i < v.len(),
    ensures
        exists|start: nat|
            #![trigger picks_from(v, i, start)]
            picks_from(v, i, start) && start + v[i].weight <= weight_sum(v),
{
    let start = weight_sum(v.subrange(0, i));
    let part = v.subrange(0, i + 1);
    assert(part.drop_last() =~= v.subrange(0, i));
    assert(part.last() == v[i]);
    weights_add_up(part, v.subrange(i + 1, v.len() as int));
    assert(part + v.subrange(i + 1, v.len() as int) =~= v);
    assert(picks_from(v, i, start));
}

/// The picks that fall on endpoint `i` are those from `start` on, as many as
/// its weight.
pub open spec fn picks_from(v: Seq<EndpointModel>, i: int, start: nat) -> bool {
    forall|pick: nat|
        #[trigger] falls_on(v, pick, i) <==> start <= pick < start + v[i].weight
}

/// A pick falls on one endpoint only.
pub proof fn a_pick_falls_on_one(v: Seq<EndpointModel>, pick: nat, i: int, j: int)
    requires
        falls_on(v, pick, i),
        falls_on(v, pick, j),
    ensures
        i == j,
{
    if i < j {
        prefix_weights_grow(v, i + 1, j);
    } else if j < i {
        prefix_weights_grow(v, j + 1, i);
    }
}

proof fn prefix_weights_grow(v: Seq<EndpointModel>, i: int, j: int)
    requires
        0 <= i <= j <= v.len(),
    ensures
        weight_sum(v.subrange(0, i)) <= weight_sum(v.subrange(0, j)),
{
    weights_add_up(v.subrange(0, i), v.subrange(i, j));
    assert(v.subrange(0, i) + v.subrange(i, j) =~= v.subrange(0, j));
}

/// The first band of a list in ascending order of priority is everything that
/// has the lowest priority, and nothing else.
pub proof fn a_band_is_one_priority(v: Seq<EndpointModel>, i: int)
    requires
        by_ascending_priority(v),
        0 <= i < v.len(),
    ensures
        i < band(v).len() <==> v[i].priority == v[0].priority,
        band(v).len() <= v.len(),
        i < band(v).len() ==> band(v)[i] == v[i],
    decreases v.len(),
{
    band_bounds(v);
    if i >= band_len(v) {
        let n = band_len(v) as int;
        assert(v[0].priority <= v[n].priority);
        if n < i {
            assert(v[n].priority <= v[i].priority);
        }
    }
}

proof fn band_bounds(v: Seq<EndpointModel>)
    ensures
        band_len(v) <= v.len(),
        v.len() > 0 ==> band_len(v) > 0,
        forall|i: int| 0 <= i < band_len(v) ==> (#[trigger] v[i]).priority == v[0].priority,
        band_len(v) < v.len() ==> v[band_len(v) as int].priority != v[0].priority,
    decreases v.len(),
{
    if v.len() > 1 && v[1].priority == v[0].priority {
        let t = v.subrange(1, v.len() as int);
        band_bounds(t);
        assert forall|i: int| 0 <= i < band_len(v) implies (#[trigger] v[i]).priority
            == v[0].priority by {
            if i > 0 {
                assert(t[i - 1] == v[i]);
            }
        }
        if band_len(v) < v.len() {
            assert(t[band_len(t) as int] == v[band_len(v) as int]);
        }
    }
}

/// In the order of preference every endpoint of the record has its place, and
/// of two, the one in front has the lower priority, or the same and no less
/// weight; equals stay in the order of the record.
pub proof fn what_is_preferred(v: Seq<EndpointModel>, out: Seq<EndpointModel>)
    requires
        in_preference_order(v, out),
    ensures
        out.len() == v.len(),
        forall|i: int, j: int|
            0 <= i < j < out.len() ==> {
                let (a, b) = (#[trigger] out[i], #[trigger] out[j]);
                a.priority < b.priority || (a.priority == b.priority && a.weight >= b.weight)
            },
        forall|e: EndpointModel| out.contains(e) <==> v.contains(e),
{
    let p = choose|p: Seq<usize>|
        #[trigger] is_stable_order(p, preferences(v)) && out == Seq::new(
            p.len(),
            |i: int| v[p[i] as int],
        );
    assert forall|i: int, j: int| 0 <= i < j < out.len() implies {
        let (a, b) = (#[trigger] out[i], #[trigger] out[j]);
        a.priority < b.priority || (a.priority == b.priority && a.weight >= b.weight)
    } by {
        assert(ranks_before(preferences(v), p[i], p[j]));
        assert(preference(v[p[i] as int]) <= preference(v[p[j] as int]));
    }
    assert forall|e: EndpointModel| out.contains(e) <==> v.contains(e) by {
        if out.contains(e) {
            let i = choose|i: int| 0 <= i < out.len() && out[i] == e;
            assert(v[p[i] as int] == e);
        }
        if v.contains(e) {
            let k = choose|k: int| 0 <= k < v.len() && v[k] == e;
            assert(p.len() == v.len());
            positions_fit(p, preferences(v));
            assert(p.contains(k as usize));
            let i = choose|i: int| 0 <= i < p.len() && p[i] == k as usize;
            assert(out[i] == e);
        }
    }
}

/// The positions of a list that has a stable order are machine numbers.
proof fn positions_fit(p: Seq<usize>, keys: Seq<u64>)
    requires
        is_stable_order(p, keys),
    ensures
        keys.len() <= usize::MAX + 1,
{
    if keys.len() > usize::MAX + 1 {
        let q = Seq::new(p.len(), |i: int| p[i] as int);
        assert(q.no_duplicates()) by {
            assert forall|i: int, j: int| 0 <= i < q.len() && 0 <= j < q.len() && i != j implies q[i]
                != q[j] by {
                if i < j {
                    assert(ranks_before(keys, p[i], p[j]));
                } else {
                    assert(ranks_before(keys, p[j], p[i]));
                }
            }
        }
        let all = vstd::set_lib::set_int_range(0, usize::MAX + 1);
        vstd::set_lib::lemma_int_range(0, usize::MAX + 1);
        q.unique_seq_to_set();
        assert(q.to_set().subset_of(all));
        vstd::set_lib::lemma_len_subset(q.to_set(), all);
    }
}

// ---------------------------------------------------------------------------
// Addresses
// ---------------------------------------------------------------------------

/// How a host is resolved: with DNSSEC for a name behind an `sqns://` address,
/// unless that is not required; otherwise by the system.
pub proof fn when_dnssec_is_used(a: AddrModel, require_dnssec: bool)
    ensures
        planned_resolution(a, require_dnssec) is Validated <==> a.scheme is Sqns && require_dnssec
            && !is_ip_text(a.host),
        planned_resolution(a, require_dnssec) is SystemInsteadOfDnssec <==> a.scheme is Sqns
            && !require_dnssec && !is_ip_text(a.host),
{
}

/// The proven addresses of two answers are those of the one and then those of
/// the other; a single record gives its address when it is one and is secure.
pub proof fn proofs_add_up(a: Seq<DnsAnswer>, b: Seq<DnsAnswer>)
    ensures
        proven(a + b) == proven(a) + proven(b),
        unproven(a + b) == unproven(a) + unproven(b),
        a.len() == 0 ==> proven(a) == Seq::<IpAddr>::empty() && unproven(a) == 0,
        a.len() == 1 ==> {
            &&& proven(a) == if a[0].is_address && a[0].secure && a[0].ip is Some {
                seq![a[0].ip->0]
            } else {
                seq![]
            }
            &&& unproven(a) == if a[0].is_address && !a[0].secure {
                1int
            } else {
                0
            }
        },
    decreases b.len(),
{
    if a.len() == 1 {
        assert(proven(a.drop_last()) =~= seq![]);
        assert(unproven(a.drop_last()) == 0);
    }
    if b.len() == 0 {
        assert(a + b =~= a);
        assert(proven(a) + proven(b) =~= proven(a));
    } else {
        assert((a + b).drop_last() =~= a + b.drop_last());
        proofs_add_up(a, b.drop_last());
        assert(proven(a + b) =~= proven(a) + proven(b));
    }
}

/// A validated answer is used when it proves at least one address, and then
/// all it proves, in its order, and nothing else is.
pub proof fn what_a_validated_answer_gives(host: Seq<char>, v: Seq<DnsAnswer>)
    ensures
        validated_addresses(host, v) is Ok <==> exists|i: int|
            0 <= i < v.len() && (#[trigger] v[i]).is_address && v[i].secure && v[i].ip is Some,
        validated_addresses(host, v) matches Ok(used) ==> used == proven(v),
{
    if exists|i: int|
        0 <= i < v.len() && (#[trigger] v[i]).is_address && v[i].secure && v[i].ip is Some {
        let i = choose|i: int|
            0 <= i < v.len() && (#[trigger] v[i]).is_address && v[i].secure && v[i].ip is Some;
        let one = v.subrange(i, i + 1);
        proofs_add_up(v.subrange(0, i), v.subrange(i, v.len() as int));
        proofs_add_up(one, v.subrange(i + 1, v.len() as int));
        assert(one + v.subrange(i + 1, v.len() as int) =~= v.subrange(i, v.len() as int));
        assert(v.subrange(0, i) + v.subrange(i, v.len() as int) =~= v);
        assert(one[0] == v[i]);
    }
    if validated_addresses(host, v) is Ok {
        assert(proven(v).contains(proven(v)[0]));
        unproven_answers_are_never_used(host, v, proven(v)[0]);
    }
}

proof fn marks_are_positions(v: Seq<bool>)
    ensures
        forall|i: int| 0 <= i < v.len() && v[i] ==> #[trigger] marked(v).contains(i),
        forall|k: int|
            0 <= k < marked(v).len() ==> 0 <= #[trigger] marked(v)[k] < v.len() && v[marked(v)[k]],
        forall|j: int, k: int|
            0 <= j < k < marked(v).len() ==> #[trigger] marked(v)[j] < #[trigger] marked(v)[k],
    decreases v.len(),
{
    if v.len() > 0 {
        let t = v.drop_last();
        marks_are_positions(t);
        assert forall|k: int| 0 <= k < marked(v).len() implies 0 <= #[trigger] marked(v)[k]
            < v.len() && v[marked(v)[k]] by {
            if k < marked(t).len() {
                assert(marked(v)[k] == marked(t)[k]);
            }
        }
        assert forall|i: int| 0 <= i < v.len() && v[i] implies #[trigger] marked(v).contains(i) by {
            if i < t.len() {
                assert(t[i] == v[i]);
                assert(marked(t).contains(i));
                let k = choose|k: int| 0 <= k < marked(t).len() && marked(t)[k] == i;
                assert(marked(v)[k] == i);
            } else {
                assert(marked(v)[marked(v).len() - 1] == i);
            }
        }
        assert forall|j: int, k: int| 0 <= j < k < marked(v).len() implies #[trigger] marked(v)[j]
            < #[trigger] marked(v)[k] by {
            assert(marked(v)[j] == marked(t)[j]);
            if k < marked(t).len() {
                assert(marked(v)[k] == marked(t)[k]);
            }
        }
    }
}

/// Which addresses are tried: each that has a route, once and in their order;
/// where none has, all of them.
pub proof fn which_addresses_are_tried(routable: Seq<bool>)
    ensures
        ({
            let tried = candidates(routable);
            &&& forall|k: int|
                0 <= k < tried.len() ==> 0 <= #[trigger] tried[k] < routable.len()
            &&& forall|j: int, k: int|
                0 <= j < k < tried.len() ==> #[trigger] tried[j] < #[trigger] tried[k]
            &&& if exists|i: int| 0 <= i < routable.len() && #[trigger] routable[i] {
                forall|i: int|
                    0 <= i < routable.len() ==> (#[trigger] tried.contains(i) <==> routable[i])
            } else {
                forall|i: int| 0 <= i < routable.len() ==> #[trigger] tried.contains(i)
            }
        }),
{
    marks_are_positions(routable);
    let tried = candidates(routable);
    if exists|i: int| 0 <= i < routable.len() && #[trigger] routable[i] {
        let i = choose|i: int| 0 <= i < routable.len() && #[trigger] routable[i];
        assert(marked(routable).contains(i));
    } else {
        if marked(routable).len() > 0 {
            assert(routable[marked(routable)[0]]);
        }
        assert forall|i: int| 0 <= i < routable.len() implies #[trigger] tried.contains(i) by {
            assert(tried[i] == i);
        }
    }
}

/// The attempts start a quarter of a second apart.
pub proof fn attempts_are_a_quarter_of_a_second_apart(i: int)
    requires
        0 <= i,
        (i + 1) * 250 <= 0xffff_ffff_ffff_ffff,
    ensures
        stagger(0) == 0,
        stagger(i) == i * 250,
        stagger(i + 1) == stagger(i) + 250,
{
}

/// The next endpoint is drawn from those of the lowest priority: the one the
/// pick falls on where any of them has weight, and the first where none has.
pub proof fn the_next_endpoint_is_of_the_first_band(rest: Seq<EndpointModel>, pick: u64)
    requires
        rest.len() > 0,
        by_ascending_priority(rest),
        weight_sum(band(rest)) > 0 ==> pick < weight_sum(band(rest)),
    ensures
        ({
            let i = next_choice(rest, pick);
            &&& 0 <= i < rest.len()
            &&& rest[i].priority == rest[0].priority
            &&& weight_sum(band(rest)) == 0 ==> i == 0
            &&& weight_sum(band(rest)) > 0 ==> rest[i].weight > 0 && weight_sum(rest.take(i)) <= pick
                < weight_sum(rest.take(i)) + rest[i].weight
        }),
{
    band_bounds(rest);
    let b = band(rest);
    if weight_sum(b) > 0 {
        some_endpoint_is_picked(b, pick as nat);
        let i = next_choice(rest, pick);
        assert(falls_on(b, pick as nat, i));
        assert(b.subrange(0, i + 1).drop_last() =~= b.subrange(0, i));
        assert(b.subrange(0, i) =~= rest.take(i));
        assert(b.subrange(0, i + 1).last() == b[i]);
        assert(b[i] == rest[i]);
    }
}

/// Every pick below the sum of weights falls on an endpoint.
pub proof fn some_endpoint_is_picked(v: Seq<EndpointModel>, pick: nat)
    requires
        pick < weight_sum(v),
    ensures
        exists|i: int| falls_on(v, pick, i),
    decreases v.len(),
{
    if v.len() > 0 {
        let t = v.drop_last();
        let n = v.len() - 1;
        assert(v.subrange(0, n) =~= t);
        assert(v.subrange(0, v.len() as int) =~= v);
        if pick < weight_sum(t) {
            some_endpoint_is_picked(t, pick);
            let i = choose|i: int| falls_on(t, pick, i);
            assert(t.subrange(0, i) =~= v.subrange(0, i));
            assert(t.subrange(0, i + 1) =~= v.subrange(0, i + 1));
            assert(falls_on(v, pick, i));
        } else {
            assert(falls_on(v, pick, n));
        }
    }
}

/// Endpoints come in the order in which they are drawn: the one the first draw
/// picks, and then the rest in the order of the other draws.
pub proof fn endpoints_come_as_they_are_drawn(rest: Seq<EndpointModel>, draws: Seq<u64>)
    requires
        rest.len() > 0,
        draws_ok(rest, draws),
    ensures
        ({
            let i = next_choice(rest, draws[0]);
            let out = draw_order(rest, draws);
            &&& out.len() > 0
            &&& out[0] == rest[i]
            &&& out.skip(1) == draw_order(rest.remove(i), draws.skip(1))
        }),
{
    let i = next_choice(rest, draws[0]);
    assert(draws.subrange(1, draws.len() as int) =~= draws.skip(1));
    assert(draw_order(rest, draws).skip(1) =~= draw_order(rest.remove(i), draws.skip(1)));
}

/// A location is that of the key the walk ended at: its identity, its
/// endpoints, each as often as the record lists it and the lower priorities
/// first, and the keys left behind.
pub proof fn what_a_location_tells(l: ServiceLocation, w: WalkModel, s: SignedModel)
    requires
        is_location(l, w, s),
        s.record.body is Live,
    ensures
        l.requested@ == w.requested,
        l.key@ == s.record.key,
        l.identity@ == s.record.delegation.identity,
        endpoint_models(l.endpoints@).to_multiset() == s.record.body->endpoints.to_multiset(),
        forall|i: int, j: int|
            0 <= i < j < l.endpoints@.len() ==> (#[trigger] l.endpoints@[i]).priority <= (
            #[trigger] l.endpoints@[j]).priority,
        l.superseded_from@.len() == w.chain.len(),
        forall|i: int|
            0 <= i < w.chain.len() ==> (#[trigger] l.superseded_from@[i])@ == w.chain[i],
{
    let out = endpoint_models(l.endpoints@);
    ordering_keeps_bands_and_endpoints(endpoints_of(s.record), out);
    assert forall|i: int, j: int| 0 <= i < j < l.endpoints@.len() implies (
    #[trigger] l.endpoints@[i]).priority <= (#[trigger] l.endpoints@[j]).priority by {
        assert(out[i].priority <= out[j].priority);
    }
    assert forall|i: int| 0 <= i < w.chain.len() implies (#[trigger] l.superseded_from@[i])@
        == w.chain[i] by {
        assert(key_seq(l.superseded_from@)[i] == w.chain[i]);
    }
}

/// A reply is an answer when it arrived and is no error.
pub proof fn which_replies_are_answers(
    server: AddrModel,
    reply: std::result::Result<ResponseModel, ErrorModel>,
)
    ensures
        no_answer(server, reply) is None <==> reply is Ok && !(reply->Ok_0 is Error),
{
}

// ---------------------------------------------------------------------------
// Requests
// ---------------------------------------------------------------------------

/// A client asks for the very key it wants, with the hops it was set up with,
/// and a server reads it so, as long as these are eight at most.
pub proof fn what_a_client_asks_for(m: ResolverModel, key: PubKey)
    ensures
        request_decoded(
            request_type(lookup_asked(m, key@)),
            request_bytes(lookup_asked(m, key@)),
        ) matches Ok(RequestModel::Lookup { key: asked, recurse }) && asked == key@ && (
        m.config.recurse <= 8 ==> recurse == m.config.recurse) && (m.config.recurse > 8 ==> recurse
            == 8),
{
    request_round_trip(Request::Lookup { key, recurse: m.config.recurse });
}

/// A client that caches nothing asks every time; one that does asks its cache
/// first.
pub proof fn when_the_cache_is_asked(m: ResolverModel, key: Seq<u8>, now: u64)
    ensures
        !m.config.cache ==> cached_answer(m, key, now) is None,
        m.config.cache ==> cached_answer(m, key, now) == cache_hit(m.cache, key, now),
{
}

/// A client publishes a record as it is, once it passes the checks for an
/// answer; and what it publishes a store admits, unless it is dated ahead.
pub proof fn what_a_client_publishes(s: SignedModel, now: u64)
    ensures
        publish_asked(s, now) is Ok <==> answer_verified(s, s.record.key, now) is Ok,
        publish_asked(s, now) matches Ok(r) ==> (r matches RequestModel::Publish { record }
            && record == s),
        publish_asked(s, now) is Ok && s.record.issued_at <= now + 300 ==> admitted(s, now) is Ok,
{
}

/// A request goes over the connection that was kept where there is one, and
/// otherwise over a new one.
pub proof fn where_a_request_starts(connected: bool)
    ensures
        connected ==> task_in(phase_at_start(connected)) is Exchange,
        !connected ==> task_in(phase_at_start(connected)) is Dial,
        phase_at_start(connected) !is Fresh,
{
}

} // verus!
