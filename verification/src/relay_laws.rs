//! Laws of relaying: what a server passes on and remembers, and how far a
//! question travels.

use vstd::prelude::*;

use crate::addr::AddrModel;
use crate::cache::{EntryModel, cache_hit};
use crate::error::ErrorModel;
use crate::key::key_len;
use crate::lifetimes::answers_accepted_in_time;
use crate::protocol::{ErrorCode, RequestModel, ResponseModel};
use crate::record::{BodyModel, SignedModel, answer_verified};
use crate::server::{ActionModel, ServerModel, lookup_action, nothing_held, own_answer, relay_reply};
use crate::store::{StoreModel, held, held_soundly, store_inv};
use crate::upstream::{
    LinkReplyModel, QueryModel, RelayedModel, UpstreamModel, link_taken, query_asked, query_over,
    query_started, relay_asked, relay_hit, upstream_started,
};

verus! {

broadcast use key_len;

// ---------------------------------------------------------------------------
// One server
// ---------------------------------------------------------------------------

/// A server answers for what it holds; what it does not hold it asks its
/// upstreams for, if it has any and there is a hop left, and it passes on the
/// very key and exactly one hop less; otherwise it answers that it holds
/// nothing.
pub proof fn a_question_is_passed_on_with_one_hop_less(
    m: ServerModel,
    key: Seq<u8>,
    recurse: u8,
    now: u64,
)
    requires
        now < 0xffff_ffff_ffff_ffff,
    ensures
        ({
            let holds = m.store.records.dom().contains(key) && (
            m.store.records[key].record.body is Live ==> now
                < m.store.records[key].record.issued_at + m.store.records[key].record.ttl);
            let action = lookup_action(m, key, recurse, now);
            &&& !holds && recurse > 0 && m.upstream.addrs.len() > 0 ==> (
            action matches ActionModel::Ask { key: asked, recurse: left } && asked == key && left
                == recurse - 1)
            &&& !holds && (recurse == 0 || m.upstream.addrs.len() == 0) ==> (
            action matches ActionModel::Reply(ResponseModel::Answer { record, successor })
                && record is None && successor is None)
            &&& holds ==> (action matches ActionModel::Reply(
                ResponseModel::Answer { record, successor },
            ) && record == Some(m.store.records[key]) && match m.store.records[key].record.body {
                BodyModel::Superseded { successor: next, .. } => successor == held(
                    m.store,
                    next,
                    now,
                ),
                _ => successor is None,
            })
        }),
{
}

/// An upstream's answer is relayed when it passes every check a client makes
/// and comes from the identity the key is bound to here, if it is bound; and
/// nothing else is relayed.
pub proof fn what_is_relayed(
    u: UpstreamModel,
    q: QueryModel,
    store: StoreModel,
    reply: LinkReplyModel,
    now: u64,
)
    ensures
        match reply {
            LinkReplyModel::Response(ResponseModel::Answer { record: Some(s), successor }) => {
                let fits = answer_verified(s, q.key, now) is Ok && (store.bindings.dom().contains(
                    q.key,
                ) ==> store.bindings[q.key] == s.record.delegation.identity);
                &&& link_taken(u, q, store, reply, now).0 is Some <==> fits
                &&& fits ==> link_taken(u, q, store, reply, now).0->0.record == s
            },
            _ => link_taken(u, q, store, reply, now).0 is None,
        },
{
}

/// The record of a successor is passed on with the record that names it, when
/// it passes the same checks; and only then.
pub proof fn a_successor_is_relayed_with_its_record(
    u: UpstreamModel,
    q: QueryModel,
    store: StoreModel,
    s: SignedModel,
    successor: Option<SignedModel>,
    now: u64,
    t: SignedModel,
)
    requires
        link_taken(
            u,
            q,
            store,
            LinkReplyModel::Response(ResponseModel::Answer { record: Some(s), successor }),
            now,
        ).0 is Some,
    ensures
        link_taken(
            u,
            q,
            store,
            LinkReplyModel::Response(ResponseModel::Answer { record: Some(s), successor }),
            now,
        ).0->0.successor == Some(t) <==> {
            &&& successor == Some(t)
            &&& s.record.body matches BodyModel::Superseded { successor: next, .. }
            &&& answer_verified(t, next, now) is Ok
            &&& store.bindings.dom().contains(next) ==> store.bindings[next]
                == t.record.delegation.identity
        },
{
}

/// Each upstream is asked once and in turn, with the question unchanged; one
/// that answers counts as having answered, whether or not its answer could be
/// relayed, and one that fails, times out, refuses or says something else does
/// not.
pub proof fn each_upstream_counts_once(
    u: UpstreamModel,
    q: QueryModel,
    store: StoreModel,
    reply: LinkReplyModel,
    now: u64,
)
    ensures
        ({
            let (_, after, p) = link_taken(u, q, store, reply, now);
            &&& p.key == q.key
            &&& p.recurse == q.recurse
            &&& p.next == q.next + 1
            &&& p.answered == q.answered + if reply matches LinkReplyModel::Response(
                ResponseModel::Answer { .. },
            ) {
                1int
            } else {
                0
            }
            &&& after.addrs == u.addrs
            &&& after.inflight == u.inflight
            &&& link_taken(u, q, store, reply, now).0 is None ==> after == u
        }),
{
}

/// A relayed record is remembered, and answered from then on for as long as it
/// lives; what was remembered of other keys stays.
pub proof fn what_is_relayed_is_remembered(
    u: UpstreamModel,
    q: QueryModel,
    store: StoreModel,
    reply: LinkReplyModel,
    now: u64,
    later: u64,
)
    requires
        link_taken(u, q, store, reply, now).0 is Some,
        u.cache is Some,
        later < 0xffff_ffff_ffff_ffff,
    ensures
        ({
            let (r, after, _) = link_taken(u, q, store, reply, now);
            let s = r->0.record;
            &&& after.cache is Some
            &&& s.record.body is Live && later < s.record.issued_at + s.record.ttl ==> (relay_hit(
                after.cache->0,
                q.key,
                later,
            ) matches Some(Some(again)) && again.record == s)
            &&& s.record.body is Live && later >= s.record.issued_at + s.record.ttl ==> relay_hit(
                after.cache->0,
                q.key,
                later,
            ) is None
            &&& !(s.record.body is Live) ==> (relay_hit(after.cache->0, q.key, later) matches Some(
                Some(again),
            ) && again.record == s)
            &&& forall|k: Seq<u8>|
                k != q.key && (r->0.successor matches Some(t) ==> k != t.record.key) ==> (
                #[trigger] after.cache->0.dom().contains(k) <==> u.cache->0.dom().contains(k)) && (
                u.cache->0.dom().contains(k) ==> after.cache->0[k] == u.cache->0[k])
        }),
{
}

/// The record of a successor that was relayed is remembered too, under its own
/// key, for as long as it lives.
pub proof fn a_relayed_successor_is_remembered(
    u: UpstreamModel,
    q: QueryModel,
    store: StoreModel,
    reply: LinkReplyModel,
    now: u64,
    later: u64,
)
    requires
        link_taken(u, q, store, reply, now).0 matches Some(r) && r.successor is Some,
        u.cache is Some,
        later < 0xffff_ffff_ffff_ffff,
    ensures
        ({
            let (r, after, _) = link_taken(u, q, store, reply, now);
            let t = r->0.successor->0;
            &&& t.record.body is Live && later >= t.record.issued_at + t.record.ttl ==> cache_hit(
                after.cache->0,
                t.record.key,
                later,
            ) is None
            &&& !(t.record.body is Live) || later < t.record.issued_at + t.record.ttl ==> cache_hit(
                after.cache->0,
                t.record.key,
                later,
            ) == Some(Some(t))
            &&& !(t.record.body is Live) || later < t.record.issued_at + t.record.ttl ==> (relay_hit(
                after.cache->0,
                q.key,
                later,
            ) matches Some(Some(again)) && again.successor == Some(t))
        }),
{
}

/// What is remembered of a key is given with what is remembered of its
/// successor; and looking changes no answer from then on.
pub proof fn what_is_remembered_of_a_key(
    m: Map<Seq<u8>, EntryModel>,
    key: Seq<u8>,
    now: u64,
    other: Seq<u8>,
    later: u64,
)
    requires
        now <= later,
    ensures
        match cache_hit(m, key, now) {
            Some(Some(s)) => {
                &&& relay_hit(m, key, now) matches Some(Some(r))
                &&& r.record == s
                &&& match s.record.body {
                    BodyModel::Superseded { successor: next, .. } => match cache_hit(m, next, now) {
                        Some(Some(t)) => r.successor == Some(t),
                        _ => r.successor is None,
                    },
                    _ => r.successor is None,
                }
            },
            Some(None) => relay_hit(m, key, now) == Some(None::<RelayedModel>),
            None => relay_hit(m, key, now) is None,
        },
        cache_hit(relay_asked(m, key, now), other, later) == cache_hit(m, other, later),
{
}

/// When every upstream has been asked: no answer from any of them is an error,
/// as long as there are any; an answer from each is an absence that is
/// remembered for half a minute; an answer from some is an absence that is not
/// remembered.
pub proof fn what_it_comes_to_when_all_were_asked(u: UpstreamModel, q: QueryModel, now: u64)
    requires
        q.answered <= u.addrs.len(),
        now + 30 <= 0xffff_ffff_ffff_ffff,
    ensures
        query_over(u, q, now).0 is Err <==> q.answered == 0 && u.addrs.len() > 0,
        q.answered < u.addrs.len() ==> query_over(u, q, now).1 == u,
        u.cache is None ==> query_over(u, q, now).1 == u,
        q.answered == u.addrs.len() && u.cache is Some ==> {
            let after = query_over(u, q, now).1;
            &&& after.addrs == u.addrs
            &&& after.cache is Some
            &&& forall|later: u64|
                later < now + 30 ==> #[trigger] relay_hit(after.cache->0, q.key, later) == Some(
                    None::<RelayedModel>,
                )
            &&& forall|later: u64|
                later >= now + 30 ==> #[trigger] relay_hit(after.cache->0, q.key, later) is None
            &&& forall|k: Seq<u8>|
                k != q.key ==> (#[trigger] after.cache->0.dom().contains(k)
                    <==> u.cache->0.dom().contains(k)) && (u.cache->0.dom().contains(k)
                    ==> after.cache->0[k] == u.cache->0[k])
        },
{
}

/// An upstream is asked for the key that was asked for, with the hops that are
/// left, and so is the next one.
pub proof fn upstreams_are_asked_alike(
    u: UpstreamModel,
    key: Seq<u8>,
    recurse: u8,
    store: StoreModel,
    reply: LinkReplyModel,
    now: u64,
)
    ensures
        query_asked(query_started(key, recurse)) matches RequestModel::Lookup {
            key: asked,
            recurse: left,
        } && asked == key && left == recurse,
        query_started(key, recurse).next == 0,
        query_started(key, recurse).answered == 0,
        query_asked(link_taken(u, query_started(key, recurse), store, reply, now).2) == query_asked(
            query_started(key, recurse),
        ),
{
}

/// What the caller is told: the record that was relayed and the record of its
/// successor, an absence, or that the upstreams failed.
pub proof fn what_the_caller_is_told(r: std::result::Result<Option<RelayedModel>, ErrorModel>)
    ensures
        r matches Ok(Some(x)) ==> (relay_reply(r) matches ResponseModel::Answer {
            record,
            successor,
        } && record == Some(x.record) && successor == x.successor),
        r == Ok::<Option<RelayedModel>, ErrorModel>(None) ==> (
        relay_reply(r) matches ResponseModel::Answer { record, successor } && record is None
            && successor is None),
        r is Err ==> (relay_reply(r) matches ResponseModel::Error { code, .. } && code
            == ErrorCode::UpstreamFailed),
{
}

// ---------------------------------------------------------------------------
// Many servers
// ---------------------------------------------------------------------------

/// Servers and where their upstreams lead: `links[i][j]` is the server at the
/// `j`th upstream address of server `i`.
#[verifier::ext_equal]
pub struct Network {
    pub servers: Seq<ServerModel>,
    pub links: Seq<Seq<int>>,
}

/// Every upstream address leads to a server.
pub open spec fn wired(net: Network) -> bool {
    &&& net.links.len() == net.servers.len()
    &&& forall|i: int|
        0 <= i < net.servers.len() ==> (#[trigger] net.links[i]).len()
            == net.servers[i].upstream.addrs.len()
    &&& forall|i: int, j: int|
        0 <= i < net.servers.len() && 0 <= j < net.links[i].len() ==> 0
            <= #[trigger] net.links[i][j] < net.servers.len()
}

/// What server `at` replies when it is asked for a key with a budget of
/// `recurse` hops: from its store, from what it remembers of its upstreams, or
/// after asking them in turn.
pub open spec fn reply_of(net: Network, at: int, key: Seq<u8>, recurse: u8, now: u64) -> ResponseModel
    decreases recurse, 0int, 0int,
{
    let m = net.servers[at];
    match lookup_action(m, key, recurse, now) {
        ActionModel::Ask { key: asked, recurse: left } => match m.upstream.cache {
            Some(c) if relay_hit(c, asked, now) is Some => relay_reply(
                Ok(relay_hit(c, asked, now)->0),
            ),
            _ => reply_after_asking(net, at, query_started(asked, left), now),
        },
        ActionModel::Reply(r) => r,
        ActionModel::ReplyAndPush { reply, .. } => reply,
    }
}

/// What server `at` replies once a question stands as `q`: its upstreams that
/// were not asked yet are asked in turn.
pub open spec fn reply_after_asking(net: Network, at: int, q: QueryModel, now: u64) -> ResponseModel
    decreases q.recurse, 1int, net.servers[at].upstream.addrs.len() - q.next,
{
    let m = net.servers[at];
    if q.next < m.upstream.addrs.len() {
        let reply = match query_asked(q) {
            RequestModel::Lookup { key, recurse } if recurse <= q.recurse => reply_of(
                net,
                net.links[at][q.next as int],
                key,
                recurse,
                now,
            ),
            _ => nothing_held(),
        };
        let (relayed, _, p) = link_taken(
            m.upstream,
            q,
            m.store,
            LinkReplyModel::Response(reply),
            now,
        );
        match relayed {
            Some(r) => relay_reply(Ok(Some(r))),
            None => reply_after_asking(net, at, p, now),
        }
    } else {
        relay_reply(
            match query_over(m.upstream, q, now).0 {
                Ok(_) => Ok(None),
                Err(e) => Err(e),
            },
        )
    }
}

/// Server `i` holds nothing that would get in the way of `key`: its store is
/// sound, what it holds for the key is under a delegation in force, the key is
/// bound to nobody but `identity`, and it remembers nothing of the key from
/// before.
pub open spec fn fit_for(net: Network, i: int, key: Seq<u8>, identity: Seq<u8>, now: u64) -> bool {
    let m = net.servers[i];
    &&& store_inv(m.store)
    &&& m.store.bindings.dom().contains(key) ==> m.store.bindings[key] == identity
    &&& m.store.records.dom().contains(key) && m.store.records[key].record.body is Live ==> now
        < m.store.records[key].record.delegation.not_after
        || m.store.records[key].record.delegation.not_after == 0xffff_ffff_ffff_ffff
    &&& m.upstream.cache matches Some(c) ==> !c.dom().contains(key)
}

/// The servers of the network are fit for the key.
pub open spec fn all_fit(net: Network, key: Seq<u8>, identity: Seq<u8>, now: u64) -> bool {
    forall|i: int| 0 <= i < net.servers.len() ==> #[trigger] fit_for(net, i, key, identity, now)
}

/// Some server of the network has this record in its store.
pub open spec fn held_somewhere(net: Network, key: Seq<u8>, s: SignedModel) -> bool {
    exists|i: int|
        0 <= i < net.servers.len() && (#[trigger] net.servers[i]).store.records.dom().contains(key)
            && net.servers[i].store.records[key] == s
}

/// The record in a reply is one that some server holds, and it would be
/// accepted by anyone.
spec fn good_reply(net: Network, key: Seq<u8>, identity: Seq<u8>, now: u64, r: ResponseModel) -> bool {
    r matches ResponseModel::Answer { record: Some(s), .. } ==> {
        &&& held_somewhere(net, key, s)
        &&& answer_verified(s, key, now) is Ok
        &&& s.record.delegation.identity == identity
    }
}

/// What a server answers from its own store would be accepted by anyone.
proof fn own_replies_are_good(
    net: Network,
    at: int,
    key: Seq<u8>,
    identity: Seq<u8>,
    now: u64,
)
    requires
        0 <= at < net.servers.len(),
        all_fit(net, key, identity, now),
        now < 0xffff_ffff_ffff_ffff,
        held(net.servers[at].store, key, now) is Some,
    ensures
        good_reply(
            net,
            key,
            identity,
            now,
            own_answer(net.servers[at].store, held(net.servers[at].store, key, now)->0, now),
        ),
{
    let m = net.servers[at];
    assert(fit_for(net, at, key, identity, now));
    assert(held_soundly(m.store, key));
    answers_accepted_in_time(m.store.records[key], key, now);
    assert(net.servers[at].store.records.dom().contains(key));
    assert(held_somewhere(net, key, m.store.records[key]));
}

/// Every reply in a fit network is good.
proof fn replies_are_good(
    net: Network,
    at: int,
    key: Seq<u8>,
    identity: Seq<u8>,
    recurse: u8,
    now: u64,
)
    requires
        0 <= at < net.servers.len(),
        wired(net),
        all_fit(net, key, identity, now),
        now < 0xffff_ffff_ffff_ffff,
    ensures
        good_reply(net, key, identity, now, reply_of(net, at, key, recurse, now)),
    decreases recurse, 0int, 0int,
{
    let m = net.servers[at];
    assert(fit_for(net, at, key, identity, now));
    if held(m.store, key, now) is Some {
        own_replies_are_good(net, at, key, identity, now);
    } else if recurse > 0 && m.upstream.addrs.len() > 0 {
        later_replies_are_good(
            net,
            at,
            key,
            identity,
            query_started(key, (recurse - 1) as u8),
            now,
        );
    }
}

proof fn later_replies_are_good(
    net: Network,
    at: int,
    key: Seq<u8>,
    identity: Seq<u8>,
    q: QueryModel,
    now: u64,
)
    requires
        0 <= at < net.servers.len(),
        wired(net),
        all_fit(net, key, identity, now),
        now < 0xffff_ffff_ffff_ffff,
        q.key == key,
    ensures
        good_reply(net, key, identity, now, reply_after_asking(net, at, q, now)),
    decreases q.recurse, 1int, net.servers[at].upstream.addrs.len() - q.next,
{
    let m = net.servers[at];
    if q.next < m.upstream.addrs.len() {
        assert(net.links[at].len() == m.upstream.addrs.len());
        let next = net.links[at][q.next as int];
        replies_are_good(net, next, key, identity, q.recurse, now);
        let reply = reply_of(net, next, key, q.recurse, now);
        let p = link_taken(m.upstream, q, m.store, LinkReplyModel::Response(reply), now).2;
        later_replies_are_good(net, at, key, identity, p, now);
    }
}

/// A question that has still to be put to a server that finds the key finds it.
proof fn found_through_a_link(
    net: Network,
    at: int,
    key: Seq<u8>,
    identity: Seq<u8>,
    q: QueryModel,
    now: u64,
    link: int,
)
    requires
        0 <= at < net.servers.len(),
        wired(net),
        all_fit(net, key, identity, now),
        now < 0xffff_ffff_ffff_ffff,
        q.key == key,
        q.next <= link < net.links[at].len(),
        reply_of(net, net.links[at][link], key, q.recurse, now) matches ResponseModel::Answer {
            record,
            ..
        } && record is Some,
    ensures
        reply_after_asking(net, at, q, now) matches ResponseModel::Answer { record, .. }
            && record is Some,
    decreases link - q.next,
{
    let m = net.servers[at];
    assert(fit_for(net, at, key, identity, now));
    assert(net.links[at].len() == m.upstream.addrs.len());
    let next = net.links[at][q.next as int];
    replies_are_good(net, next, key, identity, q.recurse, now);
    let reply = reply_of(net, next, key, q.recurse, now);
    let p = link_taken(m.upstream, q, m.store, LinkReplyModel::Response(reply), now).2;
    if q.next < link {
        found_through_a_link(net, at, key, identity, p, now, link);
    }
}

/// Each server of the path has the next one among its upstreams.
pub open spec fn is_path(net: Network, path: Seq<int>) -> bool {
    &&& path.len() > 0
    &&& forall|i: int| 0 <= i < path.len() ==> 0 <= #[trigger] path[i] < net.servers.len()
    &&& forall|i: int| #![trigger leads_on(net, path, i)]
        0 <= i < path.len() - 1 ==> leads_on(net, path, i)
}

/// The server at place `i` of the path has the next one among its upstreams.
pub open spec fn leads_on(net: Network, path: Seq<int>, i: int) -> bool {
    net.links[path[i]].contains(path[i + 1])
}

/// A question reaches as far as its budget: a key that is held by a server `n`
/// upstream links away is found by a lookup with a budget of `n` hops or more,
/// and what is found is a record that a server holds, genuine and in force.
pub proof fn a_key_is_found_within_the_budget(
    net: Network,
    path: Seq<int>,
    key: Seq<u8>,
    identity: Seq<u8>,
    recurse: u8,
    now: u64,
)
    requires
        wired(net),
        is_path(net, path),
        all_fit(net, key, identity, now),
        now < 0xffff_ffff_ffff_ffff,
        ({
            let records = net.servers[path.last()].store.records;
            &&& records.dom().contains(key)
            &&& records[key].record.body is Live ==> now < records[key].record.issued_at
                + records[key].record.ttl
        }),
        recurse >= path.len() - 1,
    ensures
        reply_of(net, path[0], key, recurse, now) matches ResponseModel::Answer { record, .. }
            && (record matches Some(s) && held_somewhere(net, key, s) && answer_verified(
            s,
            key,
            now,
        ) is Ok),
    decreases path.len(),
{
    let at = path[0];
    let m = net.servers[at];
    assert(fit_for(net, at, key, identity, now));
    replies_are_good(net, at, key, identity, recurse, now);
    if held(m.store, key, now) is None {
        if path.len() == 1 {
            assert(path.last() == path[0]);
        }
        let rest = path.subrange(1, path.len() as int);
        assert(rest.last() == path.last());
        assert forall|i: int| #![trigger leads_on(net, rest, i)]
            0 <= i < rest.len() - 1 implies leads_on(net, rest, i) by {
            assert(leads_on(net, path, i + 1));
        }
        assert(leads_on(net, path, 0));
        let link = choose|link: int|
            0 <= link < net.links[at].len() && net.links[at][link] == path[1];
        let left = (recurse - 1) as u8;
        a_key_is_found_within_the_budget(net, rest, key, identity, left, now);
        assert(net.links[at].len() == m.upstream.addrs.len());
        found_through_a_link(net, at, key, identity, query_started(key, left), now, link);
    }
}

/// A budget is not exceeded either: a server with none left asks nobody, so
/// what it replies is what it holds itself.
pub proof fn without_a_budget_nobody_is_asked(net: Network, at: int, key: Seq<u8>, now: u64)
    requires
        now < 0xffff_ffff_ffff_ffff,
        !net.servers[at].store.records.dom().contains(key),
    ensures
        reply_of(net, at, key, 0, now) matches ResponseModel::Answer { record, .. } && record is None,
{
}

/// As it starts, a server remembers nothing of its upstreams, asks as many
/// questions at a time as it was told, and one at least.
pub proof fn how_upstreams_start(addrs: Seq<AddrModel>, cache: bool, max_inflight: usize)
    ensures
        upstream_started(addrs, cache, max_inflight).addrs == addrs,
        upstream_started(addrs, cache, max_inflight).cache is Some <==> cache,
        cache ==> forall|key: Seq<u8>, now: u64| #[trigger]
            relay_hit(upstream_started(addrs, cache, max_inflight).cache->0, key, now) is None,
        upstream_started(addrs, cache, max_inflight).inflight >= 1,
        max_inflight >= 1 ==> upstream_started(addrs, cache, max_inflight).inflight == max_inflight,
{
}

} // verus!
