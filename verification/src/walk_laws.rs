//! Laws of whole walks, from the key a caller holds to where it leads.

use vstd::prelude::*;

use crate::cache::{EntryModel, asked, cache_hit};
use crate::error::ErrorModel;
use crate::journey::in_force;
use crate::key::key_len;
use crate::protocol::ResponseModel;
use crate::record::{
    SignedModel, answer_verified, is_terminal, signed_verified, successor_of, validated,
};
use crate::resolver::{MAX_SUPERSEDE_HOPS, ResolverModel, answer_taken, cached_found, rank_noted};
use crate::server::{ActionModel, ServerModel, lookup_action, nothing_held};
use crate::store::{StoreModel, held, held_soundly, store_inv};
use crate::walk::{
    WalkModel, WalkOutcome, chain_error, fresh_walk, usable_successor, walk_inv, walk_step,
    walks_end,
};

verus! {

broadcast use key_len;

// ---------------------------------------------------------------------------
// What a resolver holds
// ---------------------------------------------------------------------------

/// A sound record for `key`, signed by whom it must be.
pub open spec fn vouched(s: SignedModel, key: Seq<u8>) -> bool {
    s.record.key == key && validated(s.record) is Ok && signed_verified(s) is Ok
}

/// What holds of every resolver: a record it has cached is a vouched one for
/// the key it is cached under.
pub open spec fn resolver_sound(m: ResolverModel) -> bool {
    forall|k: Seq<u8>| #[trigger]
        m.cache.dom().contains(k) ==> (m.cache[k] matches EntryModel::Found(s) ==> vouched(s, k))
}

/// A resolver after its cache was asked, if it has one.
pub open spec fn cache_asked(m: ResolverModel, key: Seq<u8>, now: u64) -> ResolverModel {
    ResolverModel {
        cache: if m.config.cache {
            asked(m.cache, key, now)
        } else {
            m.cache
        },
        ..m
    }
}

/// Only vouched records are ever cached: whatever a server replies, whatever is
/// asked and whichever step a walk takes, the resolver stays sound.
pub proof fn only_vouched_records_are_cached(
    m: ResolverModel,
    key: Seq<u8>,
    reply: ResponseModel,
    w: WalkModel,
    record: Option<SignedModel>,
    successor: Option<SignedModel>,
    now: u64,
)
    requires
        resolver_sound(m),
    ensures
        resolver_sound(answer_taken(m, key, reply, now).1),
        resolver_sound(walk_step(m, w, record, successor, now).1),
        resolver_sound(cache_asked(m, key, now)),
        resolver_sound(ResolverModel { cache: m.cache.remove(key), ..m }),
{
}

// ---------------------------------------------------------------------------
// A walk, hop by hop
// ---------------------------------------------------------------------------

/// One hop of a walk: the walk before it, what the resolver knows, and what a
/// server replies if one has to be asked.
pub struct Hop {
    pub resolver: ResolverModel,
    pub walk: WalkModel,
    pub reply: ResponseModel,
    pub now: u64,
}

/// What is found for the key a walk stands at, and the resolver after it: the
/// record sent along if there is one, else what is cached, else what a server
/// replies.
pub open spec fn found_at(h: Hop) -> (
    std::result::Result<(Option<SignedModel>, Option<SignedModel>), ErrorModel>,
    ResolverModel,
) {
    match h.walk.prefetched {
        Some(s) => (Ok((Some(s), None)), h.resolver),
        None => {
            let m = cache_asked(h.resolver, h.walk.current, h.now);
            let hit = if m.config.cache {
                cache_hit(h.resolver.cache, h.walk.current, h.now)
            } else {
                None
            };
            match hit {
                Some(hit) => (Ok((hit, None)), m),
                None => answer_taken(m, h.walk.current, h.reply, h.now),
            }
        },
    }
}

/// What a hop comes to, and the resolver after it.
pub open spec fn hopped(h: Hop) -> (WalkOutcome, ResolverModel) {
    match found_at(h) {
        (Err(e), m) => (WalkOutcome::Failed(e), m),
        (Ok((record, along)), m) => walk_step(m, h.walk, record, along, h.now),
    }
}

/// The record found for the key a walk stands at.
pub open spec fn record_at(h: Hop) -> SignedModel {
    found_at(h).0->Ok_0.0->0
}

/// The `i`-th hop of a walk leads to where the next one goes on from.
pub open spec fn leads_on(hops: Seq<Hop>, i: int) -> bool {
    hopped(hops[i]).0 == WalkOutcome::Moved(hops[i + 1].walk)
}

/// A walk from `key`, as far as it has come: each hop goes on from where the
/// one before led. What else the resolver does in between is left open.
pub open spec fn is_walk_from(hops: Seq<Hop>, key: Seq<u8>) -> bool {
    &&& hops.len() > 0
    &&& hops[0].walk == fresh_walk(key)
    &&& forall|i: int| 0 <= i < hops.len() ==> resolver_sound((#[trigger] hops[i]).resolver)
    &&& forall|i: int| 0 <= i < hops.len() - 1 ==> #[trigger] leads_on(hops, i)
}

/// `t` is a vouched tombstone of `key`, and names `next`.
pub open spec fn forwards(t: SignedModel, key: Seq<u8>, next: Seq<u8>) -> bool {
    vouched(t, key) && successor_of(t.record) == Some(next)
}

/// The `i`-th key that a walk left behind has a vouched tombstone that names
/// the next one.
pub open spec fn left_behind(hops: Seq<Hop>, chain: Seq<Seq<u8>>, i: int) -> bool {
    chain[i] == hops[i].walk.current && forwards(
        record_at(hops[i]),
        chain[i],
        hops[i + 1].walk.current,
    )
}

/// A sound walk: a record sent along is a vouched one for the key it stands at.
spec fn walk_sound(w: WalkModel) -> bool {
    walk_inv(w) && (w.prefetched matches Some(s) ==> vouched(s, w.current))
}

/// What a sound walk finds is vouched, and where it moves on to it is sent by a
/// tombstone and stays sound.
#[verifier::rlimit(30)]
proof fn a_hop_is_sound(h: Hop)
    requires
        resolver_sound(h.resolver),
        walk_sound(h.walk),
    ensures
        found_at(h).0 matches Ok((Some(s), _)) ==> vouched(s, h.walk.current),
        hopped(h).0 matches WalkOutcome::Moved(v) ==> walk_sound(v) && v.requested
            == h.walk.requested && v.chain == h.walk.chain.push(h.walk.current) && forwards(
            record_at(h),
            h.walk.current,
            v.current,
        ),
        hopped(h).0 matches WalkOutcome::Reached(s) ==> vouched(s, h.walk.current)
            && !is_terminal(s.record),
{
    if h.walk.prefetched is None && h.resolver.cache.dom().contains(h.walk.current) {
        assert(h.resolver.cache[h.walk.current] matches EntryModel::Found(s) ==> vouched(
            s,
            h.walk.current,
        ));
    }
    if let (Ok((record, along)), m) = found_at(h) {
        walks_end(m, h.walk, record, along, h.now);
    }
}

/// Every key a walk has left behind has a vouched tombstone that names the next
/// one: the walk leads from the key that was asked for, hop by hop, to where it
/// stands, over no more than [`MAX_SUPERSEDE_HOPS`] rotations. Where it ends,
/// it ends at a live record that the key it stands at has signed.
pub proof fn a_walk_is_led_by_tombstones(hops: Seq<Hop>, key: Seq<u8>)
    requires
        is_walk_from(hops, key),
    ensures
        ({
            let w = hops.last().walk;
            &&& w.requested == key
            &&& w.chain.len() == hops.len() - 1
            &&& w.chain.len() <= MAX_SUPERSEDE_HOPS
            &&& w.chain.no_duplicates() && !w.chain.contains(w.current)
            &&& forall|i: int| 0 <= i < w.chain.len() ==> #[trigger] left_behind(hops, w.chain, i)
            &&& hopped(hops.last()).0 matches WalkOutcome::Reached(s) ==> vouched(s, w.current)
                && !is_terminal(s.record)
        }),
{
    walk_so_far(hops, key, hops.len() as int);
    let last = hops[hops.len() - 1];
    a_hop_is_sound(last);
}

proof fn walk_so_far(hops: Seq<Hop>, key: Seq<u8>, n: int)
    requires
        is_walk_from(hops, key),
        0 < n <= hops.len(),
    ensures
        ({
            let w = hops[n - 1].walk;
            &&& walk_sound(w)
            &&& w.requested == key
            &&& w.chain.len() == n - 1
            &&& forall|i: int| 0 <= i < n - 1 ==> #[trigger] left_behind(hops, w.chain, i)
        }),
    decreases n,
{
    if n > 1 {
        walk_so_far(hops, key, n - 1);
        let (h, g) = (hops[n - 2], hops[n - 1]);
        assert(leads_on(hops, n - 2));
        a_hop_is_sound(h);
        assert forall|i: int| 0 <= i < n - 1 implies #[trigger] left_behind(
            hops,
            g.walk.chain,
            i,
        ) by {
            if i < n - 2 {
                assert(left_behind(hops, h.walk.chain, i));
                assert(g.walk.chain[i] == h.walk.chain[i]);
            }
        }
    } else {
        let none = Seq::<Seq<u8>>::empty();
        assert(fresh_walk(key).chain =~= none);
        assert(none.no_duplicates() && !none.contains(key));
    }
}

// ---------------------------------------------------------------------------
// A walk to its end
// ---------------------------------------------------------------------------

/// What a server replies to a lookup from its own store.
pub open spec fn own_reply(server: ServerModel, key: Seq<u8>, recurse: u8, now: u64) -> ResponseModel {
    match lookup_action(server, key, recurse, now) {
        ActionModel::Reply(reply) => reply,
        _ => nothing_held(),
    }
}

/// What resolving comes to for a client that asks one server: the record the
/// walk reaches and the keys it left behind, oldest first, or why there is
/// none.
pub open spec fn resolved(
    server: ServerModel,
    client: ResolverModel,
    w: WalkModel,
    now: u64,
) -> std::result::Result<(SignedModel, Seq<Seq<u8>>), ErrorModel>
    decreases MAX_SUPERSEDE_HOPS + 1 - w.chain.len(),
{
    let reply = own_reply(server, w.current, client.config.recurse, now);
    match hopped(Hop { resolver: client, walk: w, reply, now }) {
        (WalkOutcome::Failed(e), _) => Err(e),
        (WalkOutcome::Reached(s), _) => Ok((s, w.chain)),
        (WalkOutcome::Moved(v), after) => resolved(server, after, v, now),
    }
}

/// The record of the `i`-th key forwards to the next one.
pub open spec fn is_rotated(m: StoreModel, keys: Seq<Seq<u8>>, i: int, now: u64) -> bool {
    successor_of(held(m, keys[i], now)->0.record) == Some(keys[i + 1])
}

/// A server holds a chain of rotations: each key but the last is superseded by
/// the next, and the last has a live record in force.
pub open spec fn rotations_held(m: StoreModel, keys: Seq<Seq<u8>>, now: u64) -> bool {
    &&& keys.len() > 0
    &&& keys.no_duplicates()
    &&& forall|i: int| 0 <= i < keys.len() ==> held(m, #[trigger] keys[i], now) is Some
    &&& forall|i: int| 0 <= i < keys.len() - 1 ==> #[trigger] is_rotated(m, keys, i, now)
    &&& in_force(held(m, keys.last(), now)->0.record, now)
    &&& !is_terminal(held(m, keys.last(), now)->0.record)
}

/// A client that has cached nothing for a key and has seen nothing that its
/// record contradicts.
pub open spec fn open_to(client: ResolverModel, m: StoreModel, key: Seq<u8>, now: u64) -> bool {
    !client.cache.dom().contains(key) && rank_noted(client.marks, held(m, key, now)->0).0 is Ok
}

/// Rotations are followed to the end: a client that only knows the first key of
/// a chain of up to [`MAX_SUPERSEDE_HOPS`] rotations reaches the last one, and
/// learns every key it left behind. One rotation more is refused.
pub proof fn rotations_are_followed_to_the_end(
    server: ServerModel,
    keys: Seq<Seq<u8>>,
    client: ResolverModel,
    now: u64,
)
    requires
        store_inv(server.store),
        rotations_held(server.store, keys, now),
        forall|i: int|
            0 <= i < keys.len() ==> open_to(client, server.store, #[trigger] keys[i], now),
    ensures
        resolved(server, client, fresh_walk(keys[0]), now) == (if keys.len()
            <= MAX_SUPERSEDE_HOPS + 1 {
            Ok((held(server.store, keys.last(), now)->0, keys.drop_last()))
        } else {
            Err(chain_error(keys[0]))
        }),
{
    let w = fresh_walk(keys[0]);
    assert(w.chain =~= keys.subrange(0, 0));
    rotations_followed_from(server, keys, client, w, 0, now);
}

/// A hop of a client that asks one server.
spec fn hop_to(server: ServerModel, client: ResolverModel, w: WalkModel, now: u64) -> Hop {
    let reply = own_reply(server, w.current, client.config.recurse, now);
    Hop { resolver: client, walk: w, reply, now }
}

/// The records of a chain are accepted as answers for their keys.
proof fn rotations_verify(m: StoreModel, keys: Seq<Seq<u8>>, i: int, now: u64)
    requires
        store_inv(m),
        rotations_held(m, keys, now),
        0 <= i < keys.len(),
    ensures
        held(m, keys[i], now) matches Some(s) && s.record.key == keys[i] && answer_verified(
            s,
            keys[i],
            now,
        ) is Ok,
        i < keys.len() - 1 ==> successor_of(held(m, keys[i], now)->0.record) == Some(keys[i + 1]),
        i == keys.len() - 1 ==> !is_terminal(held(m, keys[i], now)->0.record),
{
    assert(held(m, keys[i], now) is Some);
    assert(held_soundly(m, keys[i]));
    if i < keys.len() - 1 {
        assert(is_rotated(m, keys, i, now));
    } else {
        assert(keys[i] == keys.last());
    }
}

/// What a client finds that asks a server for a key the server holds: the
/// server's record, and the resolver knows no more than that of it.
proof fn own_record_is_found(
    server: ServerModel,
    client: ResolverModel,
    w: WalkModel,
    s: SignedModel,
    now: u64,
)
    requires
        w.prefetched is None,
        held(server.store, w.current, now) == Some(s),
        s.record.key == w.current,
        answer_verified(s, w.current, now) is Ok,
        open_to(client, server.store, w.current, now),
    ensures
        found_at(hop_to(server, client, w, now)) == (
            Ok::<(Option<SignedModel>, Option<SignedModel>), ErrorModel>(
                (
                    Some(s),
                    match successor_of(s.record) {
                        Some(next) => held(server.store, next, now),
                        None => None,
                    },
                ),
            ),
            ResolverModel {
                config: client.config,
                cache: cached_found(client, s),
                marks: rank_noted(client.marks, s).1,
            },
        ),
{
    assert(cache_asked(client, w.current, now) == client);
}

/// What noting a record leaves open for another key.
proof fn other_keys_stay_open(
    client: ResolverModel,
    m: StoreModel,
    s: SignedModel,
    key: Seq<u8>,
    now: u64,
)
    requires
        open_to(client, m, key, now),
        held(m, key, now) is Some,
        held(m, key, now)->0.record.key == key,
        s.record.key != key,
        rank_noted(client.marks, s).0 is Ok,
    ensures
        open_to(
            ResolverModel {
                config: client.config,
                cache: cached_found(client, s),
                marks: rank_noted(client.marks, s).1,
            },
            m,
            key,
            now,
        ),
{
}

/// One hop along a chain: to the next key, with its record sent along or still
/// to be asked for, and the keys after it as open as before.
#[verifier::rlimit(30)]
proof fn one_rotation_is_followed(
    server: ServerModel,
    keys: Seq<Seq<u8>>,
    client: ResolverModel,
    w: WalkModel,
    j: int,
    now: u64,
)
    requires
        store_inv(server.store),
        rotations_held(server.store, keys, now),
        stands_at(server, keys, client, w, j, now),
        j < keys.len() - 1,
    ensures
        ({
            let (o, after) = hopped(hop_to(server, client, w, now));
            if j + 1 <= MAX_SUPERSEDE_HOPS {
                o matches WalkOutcome::Moved(v) && stands_at(server, keys, after, v, j + 1, now)
            } else {
                o == WalkOutcome::Failed(chain_error(keys[0]))
            }
        }),
{
    let m = server.store;
    let h = hop_to(server, client, w, now);
    let s = held(m, keys[j], now)->0;
    let next = keys[j + 1];
    let n = held(m, next, now)->0;
    rotations_verify(m, keys, j, now);
    rotations_verify(m, keys, j + 1, now);
    assert(next != w.current);
    assert(!w.chain.contains(next)) by {
        if w.chain.contains(next) {
            let i = choose|i: int| 0 <= i < w.chain.len() && w.chain[i] == next;
            assert(keys[i] == keys[j + 1]);
        }
    }
    assert(open_to(client, m, keys[j + 1], now));
    assert(w.chain.push(w.current) =~= keys.subrange(0, j + 1));
    let (found, informed) = found_at(h);
    if w.prefetched is None {
        own_record_is_found(server, client, w, s, now);
        other_keys_stay_open(client, m, s, next, now);
        assert(usable_successor(informed, next, Some(n), now) == Some(n));
    }
    let (o, after) = hopped(h);
    assert forall|i: int| j + 1 < i < keys.len() implies open_to(
        after,
        m,
        #[trigger] keys[i],
        now,
    ) by {
        rotations_verify(m, keys, i, now);
        assert(open_to(client, m, keys[i], now));
        assert(keys[i] != keys[j] && keys[i] != keys[j + 1]);
        if w.prefetched is None {
            other_keys_stay_open(client, m, s, keys[i], now);
            other_keys_stay_open(informed, m, n, keys[i], now);
        }
    }
}

/// A walk along a chain of rotations that stands at its `j`-th key.
spec fn stands_at(
    server: ServerModel,
    keys: Seq<Seq<u8>>,
    client: ResolverModel,
    w: WalkModel,
    j: int,
    now: u64,
) -> bool {
    &&& 0 <= j < keys.len()
    &&& j <= MAX_SUPERSEDE_HOPS
    &&& w.requested == keys[0]
    &&& w.current == keys[j]
    &&& w.chain == keys.subrange(0, j)
    &&& w.prefetched is Some ==> w.prefetched == held(server.store, keys[j], now)
    &&& w.prefetched is None ==> open_to(client, server.store, keys[j], now)
    &&& forall|i: int|
        j < i < keys.len() ==> open_to(client, server.store, #[trigger] keys[i], now)
}

proof fn rotations_followed_from(
    server: ServerModel,
    keys: Seq<Seq<u8>>,
    client: ResolverModel,
    w: WalkModel,
    j: int,
    now: u64,
)
    requires
        store_inv(server.store),
        rotations_held(server.store, keys, now),
        stands_at(server, keys, client, w, j, now),
    ensures
        resolved(server, client, w, now) == (if keys.len() <= MAX_SUPERSEDE_HOPS + 1 {
            Ok((held(server.store, keys.last(), now)->0, keys.drop_last()))
        } else {
            Err(chain_error(keys[0]))
        }),
    decreases keys.len() - j,
{
    let h = hop_to(server, client, w, now);
    if j < keys.len() - 1 {
        one_rotation_is_followed(server, keys, client, w, j, now);
        if j + 1 <= MAX_SUPERSEDE_HOPS {
            let (o, after) = hopped(h);
            rotations_followed_from(server, keys, after, o->Moved_0, j + 1, now);
        }
    } else {
        let s = held(server.store, keys[j], now)->0;
        rotations_verify(server.store, keys, j, now);
        if w.prefetched is None {
            own_record_is_found(server, client, w, s, now);
        }
        assert(keys[j] == keys.last());
        assert(keys.subrange(0, j) =~= keys.drop_last());
        assert(hopped(h).0 == WalkOutcome::Reached(s));
    }
}

} // verus!
