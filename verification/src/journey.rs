//! Laws that span server and client: what comes of a record between the one
//! who signs it and the one who asks for its key.

use vstd::prelude::*;

use crate::error::ErrorModel;
use crate::key::{ed25519_verifies, key_len};
use crate::protocol::Response;
use crate::record::{
    RecordModel, SignedRecord, answer_verified, is_expired, is_terminal, record_bytes,
    record_message, successor_of,
};
use crate::resolver::{ResolverModel, answer_taken, rank_noted};
use crate::server::{ActionModel, ServerModel, lookup_action, own_answer, publish_action};
use crate::store::{PutOutcome, StoreModel, held, held_soundly, put_result, store_inv};
use crate::walk::{WalkModel, WalkOutcome, fresh_walk, walk_step};
use crate::delegation::delegation_expired;

verus! {

broadcast use key_len;

/// A record at an hour at which it still counts: neither it nor, unless it
/// retires its key, its delegation has lapsed.
pub open spec fn in_force(r: RecordModel, now: u64) -> bool {
    !is_expired(r, now) && (is_terminal(r) || !delegation_expired(r.delegation, now))
}

/// What was stored is read back, as long as it has not expired.
pub proof fn what_is_stored_is_read_back(m: StoreModel, s: SignedRecord, now: u64, later: u64)
    requires
        put_result(m, s@, now).0 == Ok::<PutOutcome, ErrorModel>(PutOutcome::Stored),
        !is_expired(s@.record, later),
    ensures
        held(put_result(m, s@, now).1, s@.record.key, later) == Some(s@),
{
}

/// What a server accepted is what a client that looks the key up is given,
/// whatever the hop budget, as long as the record is in force and does not
/// contradict what the client has seen before.
pub proof fn what_is_published_is_found(
    server: ServerModel,
    s: SignedRecord,
    published: u64,
    client: ResolverModel,
    recurse: u8,
    now: u64,
)
    requires
        publish_action(server.store, s@, published).0 is ReplyAndPush,
        in_force(s@.record, now),
        rank_noted(client.marks, s@).0 is Ok,
    ensures
        ({
            let after = ServerModel {
                store: publish_action(server.store, s@, published).1,
                ..server
            };
            &&& lookup_action(after, s@.record.key, recurse, now) matches ActionModel::Reply(reply)
            &&& answer_taken(client, s@.record.key, reply, now).0 matches Ok((found, _))
            &&& found == Some(s@)
        }),
{
    what_is_stored_is_read_back(server.store, s, published, now);
}

/// Every record a server holds in force is accepted by a client that has seen
/// nothing of its key to the contrary: a server's own answers are never
/// refused.
pub proof fn held_records_are_accepted(
    m: StoreModel,
    key: Seq<u8>,
    client: ResolverModel,
    now: u64,
)
    requires
        store_inv(m),
        held(m, key, now) matches Some(s) && in_force(s.record, now) && rank_noted(
            client.marks,
            s,
        ).0 is Ok,
    ensures
        answer_verified(held(m, key, now)->0, key, now) is Ok,
        answer_taken(client, key, own_answer(m, held(m, key, now)->0, now), now).0 matches Ok((found, _))
            && found == held(m, key, now),
{
    assert(held_soundly(m, key));
}

/// Rotation strands nobody: when a server holds the tombstone of one key and a
/// live record of the key it names, a client that only knows the old key is
/// led to the new one in a single exchange, and learns which key it left
/// behind.
pub proof fn a_rotation_is_followed_in_one_exchange(
    server: ServerModel,
    old_key: Seq<u8>,
    client: ResolverModel,
    recurse: u8,
    now: u64,
)
    requires
        store_inv(server.store),
        held(server.store, old_key, now) matches Some(t) && (successor_of(t.record) matches Some(
            next,
        ) && (held(server.store, next, now) matches Some(s) && in_force(s.record, now)
            && !is_terminal(s.record) && rank_noted(client.marks, t).0 is Ok && rank_noted(
            client.marks,
            s,
        ).0 is Ok)),
    ensures
        ({
            let t = held(server.store, old_key, now)->0;
            let next = successor_of(t.record)->0;
            let s = held(server.store, next, now)->0;
            &&& lookup_action(server, old_key, recurse, now) matches ActionModel::Reply(reply)
            &&& answer_taken(client, old_key, reply, now) matches (Ok((found, along)), informed)
            &&& walk_step(informed, fresh_walk(old_key), found, along, now) matches (
                WalkOutcome::Moved(there),
                after,
            )
            &&& there.current == next
            &&& there.chain == seq![old_key]
            &&& there.prefetched == Some(s)
            &&& walk_step(after, there, there.prefetched, None, now).0 == WalkOutcome::Reached(s)
        }),
{
    let t = held(server.store, old_key, now)->0;
    let next = successor_of(t.record)->0;
    let s = held(server.store, next, now)->0;
    assert(held_soundly(server.store, old_key));
    assert(held_soundly(server.store, next));
    assert(next != old_key);
    let empty = Seq::<Seq<u8>>::empty();
    assert(!empty.contains(next));
    assert(empty.push(old_key) =~= seq![old_key]);
}

/// Nobody is led anywhere but by signatures: whatever a server replies, a walk
/// that ends there ends at a record the key itself has signed, and a walk that
/// goes on was sent on by a tombstone that the identity behind the key has
/// signed. A record sent along was checked for the key the tombstone names.
pub proof fn no_server_can_redirect(
    client: ResolverModel,
    w: WalkModel,
    reply: Response,
    now: u64,
)
    requires
        answer_taken(client, w.current, reply@, now).0 is Ok,
    ensures
        ({
            let (found, along) = answer_taken(client, w.current, reply@, now).0->Ok_0;
            let informed = answer_taken(client, w.current, reply@, now).1;
            match walk_step(informed, w, found, along, now).0 {
                WalkOutcome::Failed(_) => true,
                WalkOutcome::Reached(s) => found == Some(s) && s.record.key == w.current
                    && in_force(s.record, now) && ed25519_verifies(
                    w.current,
                    record_message(record_bytes(s.record)),
                    s.signature,
                ),
                WalkOutcome::Moved(v) => {
                    &&& found matches Some(t)
                    &&& t.record.key == w.current
                    &&& successor_of(t.record) == Some(v.current)
                    &&& ed25519_verifies(
                        t.record.delegation.identity,
                        record_message(record_bytes(t.record)),
                        t.signature,
                    )
                    &&& v.prefetched matches Some(s) ==> answer_verified(s, v.current, now) is Ok
                },
            }
        }),
{
}

} // verus!
