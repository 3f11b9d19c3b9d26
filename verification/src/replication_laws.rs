//! Laws of replication: what a batch of records leaves in a store, and that
//! pulling brings two servers together.

use vstd::prelude::*;

use crate::error::ErrorModel;
use crate::key::{bytes_before, key_len};
use crate::lifetimes::admission_is_complete;
use crate::protocol::{MAX_SYNC_BATCH, RequestModel, ResponseModel};
use crate::record::{RecordModel, SignedModel};
use crate::replication::{
    PullModel, PullOutcome, batch_high, batch_taken, merged, pull_asked, pull_started, push_asked,
};
use crate::server::{
    ActionModel, ServerModel, is_handled, is_identity_action, is_sync_action, sync_limit,
};
use crate::store::{
    PutOutcome, StoreModel, admitted, first_of, held_soundly, is_identity_list, is_sync_list,
    listed, put_result, store_inv, synced_before,
};

verus! {

broadcast use key_len;

/// `held` is as good as `other` or better: it is a retirement, or `other` is
/// live and has a lower serial, or the same serial and was issued no later.
pub open spec fn as_good_as(held: RecordModel, other: RecordModel) -> bool {
    !(held.body is Live) || (other.body is Live && (other.serial < held.serial || (other.serial
        == held.serial && other.issued_at <= held.issued_at)))
}

/// Every record of `v` for `key` is issued by `identity`.
pub open spec fn all_issued_by(v: Seq<SignedModel>, key: Seq<u8>, identity: Seq<u8>) -> bool {
    forall|j: int|
        0 <= j < v.len() && (#[trigger] v[j]).record.key == key ==> v[j].record.delegation.identity
            == identity
}

// ---------------------------------------------------------------------------
// Batches
// ---------------------------------------------------------------------------

/// Merging nothing changes nothing, and merging a batch of one is putting that
/// record, live or not; it counts when it was stored.
pub proof fn a_batch_of_one_is_a_put(m: StoreModel, s: SignedModel, now: u64)
    ensures
        merged(m, seq![], now) == (m, 0nat),
        merged(m, seq![s], now).0 == put_result(m, s, now).1,
        merged(m, seq![s], now).1 == 1 <==> put_result(m, s, now).0 == Ok::<PutOutcome, ErrorModel>(
            PutOutcome::Stored,
        ),
        merged(m, seq![s], now).1 <= 1,
{
    assert(seq![s].drop_last() =~= seq![]);
    assert(merged(m, seq![s].drop_last(), now) == (m, 0nat));
}

/// Merging two batches one after the other is merging them as one.
pub proof fn batches_add_up(m: StoreModel, a: Seq<SignedModel>, b: Seq<SignedModel>, now: u64)
    ensures
        merged(m, a + b, now).0 == merged(merged(m, a, now).0, b, now).0,
        merged(m, a + b, now).1 == merged(m, a, now).1 + merged(merged(m, a, now).0, b, now).1,
    decreases b.len(),
{
    if b.len() == 0 {
        assert(a + b =~= a);
    } else {
        assert((a + b).drop_last() =~= a + b.drop_last());
        assert((a + b).last() == b.last());
        batches_add_up(m, a, b.drop_last(), now);
    }
}

/// The count of a merge is how often the store changed: each record that was
/// new moves the revision by one.
pub proof fn a_merge_counts_what_it_stored(m: StoreModel, v: Seq<SignedModel>, now: u64)
    requires
        m.revision + v.len() <= 0xffff_ffff_ffff_ffff,
    ensures
        merged(m, v, now).1 <= v.len(),
        merged(m, v, now).0.revision == m.revision + merged(m, v, now).1,
    decreases v.len(),
{
    if v.len() > 0 {
        a_merge_counts_what_it_stored(m, v.drop_last(), now);
    }
}

/// A key stays with the identity it is bound to, or that every record of the
/// batch names, all through a merge.
proof fn bindings_agree(
    m: StoreModel,
    v: Seq<SignedModel>,
    now: u64,
    key: Seq<u8>,
    identity: Seq<u8>,
)
    requires
        m.bindings.dom().contains(key) ==> m.bindings[key] == identity,
        m.bindings.dom().contains(key) || all_issued_by(v, key, identity),
    ensures
        merged(m, v, now).0.bindings.dom().contains(key) ==> merged(m, v, now).0.bindings[key]
            == identity,
    decreases v.len(),
{
    if v.len() > 0 {
        let t = v.drop_last();
        assert forall|j: int| 0 <= j < t.len() && (#[trigger] t[j]).record.key == key implies (
        m.bindings.dom().contains(key) || t[j].record.delegation.identity == identity) by {
            assert(t[j] == v[j]);
        }
        bindings_agree(m, t, now, key, identity);
        assert(v[v.len() - 1] == v.last());
        if m.bindings.dom().contains(key) {
            bound_keys_stay_bound(m, t, now, key);
        }
    }
}

/// What is bound stays bound through a merge.
proof fn bound_keys_stay_bound(
    m: StoreModel,
    v: Seq<SignedModel>,
    now: u64,
    key: Seq<u8>,
)
    requires
        m.bindings.dom().contains(key),
    ensures
        merged(m, v, now).0.bindings.dom().contains(key),
        merged(m, v, now).0.bindings[key] == m.bindings[key],
    decreases v.len(),
{
    if v.len() > 0 {
        bound_keys_stay_bound(m, v.drop_last(), now, key);
    }
}

/// After a merge, for every record of the batch that the store admits and whose
/// key is bound to nobody else, the store holds for that key this very record
/// or one that is as good. Whether the key was answered before is no reason to
/// pass a record over. (A key that is bound to nobody yet is bound by the first
/// record of the batch that is stored for it, so there the batch has to agree
/// on the identity.)
pub proof fn a_merge_keeps_the_best(
    m: StoreModel,
    v: Seq<SignedModel>,
    now: u64,
    i: int,
)
    requires
        0 <= i < v.len(),
        admitted(v[i], now) is Ok,
        m.bindings.dom().contains(v[i].record.key) ==> m.bindings[v[i].record.key]
            == v[i].record.delegation.identity,
        m.bindings.dom().contains(v[i].record.key) || all_issued_by(
            v,
            v[i].record.key,
            v[i].record.delegation.identity,
        ),
    ensures
        ({
            let after = merged(m, v, now).0;
            &&& after.records.dom().contains(v[i].record.key)
            &&& after.records[v[i].record.key] == v[i] || as_good_as(
                after.records[v[i].record.key].record,
                v[i].record,
            )
        }),
    decreases v.len(),
{
    let (key, identity) = (v[i].record.key, v[i].record.delegation.identity);
    let t = v.drop_last();
    let before = merged(m, t, now).0;
    assert forall|j: int| 0 <= j < t.len() && (#[trigger] t[j]).record.key == key implies (
    m.bindings.dom().contains(key) || t[j].record.delegation.identity == identity) by {
        assert(t[j] == v[j]);
    }
    if i < t.len() {
        assert(t[i] == v[i]);
        a_merge_keeps_the_best(m, t, now, i);
    } else {
        bindings_agree(m, t, now, key, identity);
        assert(v.last() == v[i]);
    }
}

/// What a store holds after a merge it held before or got from the batch.
pub proof fn a_merge_invents_nothing(m: StoreModel, v: Seq<SignedModel>, now: u64, key: Seq<u8>)
    requires
        merged(m, v, now).0.records.dom().contains(key),
    ensures
        m.records.dom().contains(key) && merged(m, v, now).0.records[key] == m.records[key]
            || exists|j: int|
            0 <= j < v.len() && #[trigger] v[j] == merged(m, v, now).0.records[key],
    decreases v.len(),
{
    if v.len() > 0 {
        let t = v.drop_last();
        let before = merged(m, t, now).0;
        let after = merged(m, v, now).0;
        if after.records[key] == v.last() {
            assert(v[v.len() - 1] == after.records[key]);
        }
        if before.records.dom().contains(key) && before.records[key] == after.records[key] {
            a_merge_invents_nothing(m, t, now, key);
            if exists|j: int| 0 <= j < t.len() && #[trigger] t[j] == before.records[key] {
                let j = choose|j: int| 0 <= j < t.len() && #[trigger] t[j] == before.records[key];
                assert(v[j] == after.records[key]);
            }
        }
    }
}

// ---------------------------------------------------------------------------
// Pulls
// ---------------------------------------------------------------------------

/// A record can be taken over at `now`: it is not issued more than five minutes
/// ahead, and, where it is live, is within its ttl and its delegation.
pub open spec fn can_be_taken_over(r: RecordModel, now: u64) -> bool {
    &&& r.issued_at <= now + 300
    &&& r.body is Live ==> now < r.issued_at + r.ttl
    &&& r.body is Live ==> now < r.delegation.not_after || r.delegation.not_after
        == 0xffff_ffff_ffff_ffff
}

/// A pull that is complete brings everything: of each record the peer lists,
/// as long as it can still be taken over and its key is bound to nobody else
/// here, this store then holds that record or one that is as good.
pub proof fn a_complete_pull_brings_everything(
    peer: StoreModel,
    mine: StoreModel,
    l: Seq<SignedModel>,
    p: PullModel,
    asked: u64,
    now: u64,
    key: Seq<u8>,
)
    requires
        store_inv(peer),
        is_sync_list(l, peer, p.since, asked),
        asked < 0xffff_ffff_ffff_ffff,
        now < 0xffff_ffff_ffff_ffff,
        peer.records.dom().contains(key),
        peer.records[key].record.issued_at >= p.since,
        can_be_taken_over(peer.records[key].record, asked),
        can_be_taken_over(peer.records[key].record, now),
        mine.bindings.dom().contains(key) ==> mine.bindings[key]
            == peer.records[key].record.delegation.identity,
    ensures
        ({
            let (outcome, after) = batch_taken(
                p,
                mine,
                ResponseModel::Records { records: l, complete: true },
                now,
            );
            &&& outcome is Done
            &&& after.records.dom().contains(key)
            &&& after.records[key] == peer.records[key] || as_good_as(
                after.records[key].record,
                peer.records[key].record,
            )
        }),
{
    let s = peer.records[key];
    assert(held_soundly(peer, key));
    assert(l.contains(s));
    let i = choose|i: int| 0 <= i < l.len() && l[i] == s;
    admission_is_complete(s, now);
    assert forall|j: int| 0 <= j < l.len() && (#[trigger] l[j]).record.key
        == key implies l[j].record.delegation.identity == s.record.delegation.identity by {
        assert(listed(peer, l[j], asked));
    }
    a_merge_keeps_the_best(mine, l, now, i);
}

/// A pull that goes on skips nothing: what the peer still has to send was
/// issued at or after the point the next batch starts from.
pub proof fn a_pull_skips_nothing(
    peer: StoreModel,
    mine: StoreModel,
    l: Seq<SignedModel>,
    limit: nat,
    p: PullModel,
    asked: u64,
    now: u64,
    j: int,
)
    requires
        is_sync_list(l, peer, p.since, asked),
        0 < limit <= j < l.len(),
    ensures
        batch_taken(
            p,
            mine,
            ResponseModel::Records { records: first_of(l, limit), complete: false },
            now,
        ).0 matches PullOutcome::More(q) ==> q.since <= l[j].record.issued_at,
{
    let part = first_of(l, limit);
    assert(part.len() == limit);
    highest_of_a_batch(part, p.since);
    let h = choose|h: int| 0 <= h < part.len() && (#[trigger] part[h]).record.issued_at == batch_high(
        part,
        p.since,
    );
    assert(part[h] == l[h]);
    assert(synced_before(l[h], l[j]));
}

/// The highest time of a batch is that of one of its records.
proof fn highest_of_a_batch(v: Seq<SignedModel>, since: u64)
    requires
        v.len() > 0,
    ensures
        exists|i: int|
            0 <= i < v.len() && (#[trigger] v[i]).record.issued_at == batch_high(v, since),
        forall|i: int|
            0 <= i < v.len() ==> (#[trigger] v[i]).record.issued_at <= batch_high(v, since),
    decreases v.len(),
{
    let t = v.drop_last();
    if t.len() == 0 {
        assert(v[0].record.issued_at == batch_high(v, since));
    } else {
        highest_of_a_batch(t, since);
        let i = choose|i: int|
            0 <= i < t.len() && (#[trigger] t[i]).record.issued_at == batch_high(t, since);
        assert(v[i] == t[i]);
        assert(v[v.len() - 1] == v.last());
        assert forall|k: int| 0 <= k < v.len() implies (#[trigger] v[k]).record.issued_at
            <= batch_high(v, since) by {
            if k < t.len() {
                assert(t[k] == v[k]);
            }
        }
    }
}

/// A batch that is not complete is one the limit cut short, and what it holds
/// is older than what it leaves out; a batch that is complete leaves nothing
/// out.
pub proof fn a_batch_is_the_oldest(
    m: StoreModel,
    l: Seq<SignedModel>,
    since: u64,
    limit: nat,
    now: u64,
    i: int,
    j: int,
)
    requires
        is_sync_list(l, m, since, now),
        0 <= i < first_of(l, limit).len() <= j < l.len(),
    ensures
        first_of(l, limit).len() == limit,
        first_of(l, limit)[i] == l[i],
        first_of(l, limit)[i].record.issued_at <= l[j].record.issued_at,
{
    assert(synced_before(l[i], l[j]));
}

/// The limit of a sync request is kept between one record and 512, and is taken
/// as it is within those bounds.
pub proof fn a_sync_limit_is_kept_in_bounds(limit: u16)
    ensures
        1 <= sync_limit(limit) <= 512,
        1 <= limit <= 512 ==> sync_limit(limit) == limit,
        limit > 512 ==> sync_limit(limit) == 512,
        MAX_SYNC_BATCH == 512,
{
}

/// A server that answers syncs lists what it holds, no more than the limit and
/// the oldest first, those of one second by their keys; it says that this was all just when it was; and what it
/// leaves out is no older than what it sends.
pub proof fn a_sync_lists_what_is_held(
    m: ServerModel,
    since: u64,
    limit: u16,
    now: u64,
    a: ActionModel,
)
    requires
        m.allow_sync,
        now < 0xffff_ffff_ffff_ffff,
        is_sync_action(a, m, since, limit, now),
    ensures
        a matches ActionModel::Reply(ResponseModel::Records { records, complete }) && {
            &&& 1 <= limit <= 512 ==> records.len() <= limit
            &&& records.len() <= 512
            &&& forall|i: int|
                0 <= i < records.len() ==> {
                    let r = (#[trigger] records[i]).record;
                    &&& m.store.records.dom().contains(r.key)
                    &&& m.store.records[r.key] == records[i]
                    &&& r.issued_at >= since
                    &&& r.body is Live ==> now < r.issued_at + r.ttl
                }
            &&& forall|i: int, j: int|
                0 <= i < j < records.len() ==> {
                    let (a, b) = ((#[trigger] records[i]).record, (#[trigger] records[j]).record);
                    a.issued_at < b.issued_at || (a.issued_at == b.issued_at && bytes_before(
                        a.key,
                        b.key,
                    ))
                }
            &&& forall|k: Seq<u8>| #[trigger]
                m.store.records.dom().contains(k) && m.store.records[k].record.issued_at >= since
                    && (m.store.records[k].record.body is Live ==> now
                    < m.store.records[k].record.issued_at + m.store.records[k].record.ttl) ==> {
                    ||| records.contains(m.store.records[k])
                    ||| !complete && forall|i: int|
                        0 <= i < records.len() ==> (#[trigger] records[i]).record.issued_at
                            <= m.store.records[k].record.issued_at
                }
            &&& !complete ==> records.len() >= 1 && (1 <= limit <= 512 ==> records.len() == limit)
        },
{
    let l = choose|l: Seq<SignedModel>| #[trigger]
        is_sync_list(l, m.store, since, now) && a == ActionModel::Reply(
            ResponseModel::Records {
                records: first_of(l, sync_limit(limit)),
                complete: l.len() <= sync_limit(limit),
            },
        );
    let records = first_of(l, sync_limit(limit));
    assert forall|i: int| 0 <= i < records.len() implies {
        let r = (#[trigger] records[i]).record;
        &&& m.store.records.dom().contains(r.key)
        &&& m.store.records[r.key] == records[i]
        &&& r.issued_at >= since
        &&& r.body is Live ==> now < r.issued_at + r.ttl
    } by {
        assert(records[i] == l[i]);
        assert(listed(m.store, l[i], now));
    }
    assert forall|i: int, j: int| 0 <= i < j < records.len() implies {
        let (a, b) = ((#[trigger] records[i]).record, (#[trigger] records[j]).record);
        a.issued_at < b.issued_at || (a.issued_at == b.issued_at && bytes_before(a.key, b.key))
    } by {
        assert(records[i] == l[i] && records[j] == l[j]);
        assert(synced_before(l[i], l[j]));
    }
    assert forall|k: Seq<u8>| #[trigger]
        m.store.records.dom().contains(k) && m.store.records[k].record.issued_at >= since && (
        m.store.records[k].record.body is Live ==> now < m.store.records[k].record.issued_at
            + m.store.records[k].record.ttl) implies (records.contains(m.store.records[k])
        || l.len() > sync_limit(limit) && forall|i: int|
        0 <= i < records.len() ==> (#[trigger] records[i]).record.issued_at
            <= m.store.records[k].record.issued_at) by {
        let s = m.store.records[k];
        assert(l.contains(s));
        let j = choose|j: int| 0 <= j < l.len() && l[j] == s;
        if j < records.len() {
            assert(records[j] == s);
        } else {
            assert forall|i: int| 0 <= i < records.len() implies (
            #[trigger] records[i]).record.issued_at <= s.record.issued_at by {
                assert(records[i] == l[i]);
                assert(synced_before(l[i], l[j]));
            }
        }
    }
}

/// A server lists for an identity the records it holds of the keys bound to
/// it, in the order of the keys: each of them where they are not too many, and
/// no others.
pub proof fn an_identity_lists_its_keys(
    m: ServerModel,
    identity: Seq<u8>,
    now: u64,
    a: ActionModel,
)
    requires
        now < 0xffff_ffff_ffff_ffff,
        is_identity_action(a, m, identity, now),
    ensures
        a matches ActionModel::Reply(ResponseModel::Records { records, complete }) && {
            &&& records.len() <= 512
            &&& forall|i: int|
                0 <= i < records.len() ==> {
                    let r = (#[trigger] records[i]).record;
                    &&& m.store.records.dom().contains(r.key)
                    &&& m.store.records[r.key] == records[i]
                    &&& m.store.bindings.dom().contains(r.key)
                    &&& m.store.bindings[r.key] == identity
                    &&& r.body is Live ==> now < r.issued_at + r.ttl
                }
            &&& forall|i: int, j: int|
                0 <= i < j < records.len() ==> bytes_before(
                    (#[trigger] records[i]).record.key,
                    (#[trigger] records[j]).record.key,
                )
            &&& records.len() < 512 ==> forall|k: Seq<u8>| #[trigger]
                m.store.records.dom().contains(k) && m.store.bindings.dom().contains(k)
                    && m.store.bindings[k] == identity && (m.store.records[k].record.body is Live
                    ==> now < m.store.records[k].record.issued_at + m.store.records[k].record.ttl)
                    ==> records.contains(m.store.records[k])
        },
{
    let l = choose|l: Seq<SignedModel>| #[trigger]
        is_identity_list(l, m.store, identity, now) && a == ActionModel::Reply(
            ResponseModel::Records { records: first_of(l, MAX_SYNC_BATCH as nat), complete: true },
        );
    let records = first_of(l, MAX_SYNC_BATCH as nat);
    assert forall|i: int| 0 <= i < records.len() implies {
        let r = (#[trigger] records[i]).record;
        &&& m.store.records.dom().contains(r.key)
        &&& m.store.records[r.key] == records[i]
        &&& m.store.bindings.dom().contains(r.key)
        &&& m.store.bindings[r.key] == identity
        &&& r.body is Live ==> now < r.issued_at + r.ttl
    } by {
        assert(records[i] == l[i]);
        assert(listed(m.store, l[i], now));
    }
}

/// A pull starts where the last one ended, and asks for what was issued from
/// there on, 512 records at a time; when it goes on, it asks from the time of
/// the last record it was sent.
pub proof fn what_a_pull_asks_for(
    watermark: u64,
    p: PullModel,
    m: StoreModel,
    records: Seq<SignedModel>,
    now: u64,
)
    ensures
        pull_asked(pull_started(watermark)) matches RequestModel::Sync { since, limit } && since
            == watermark && limit == 512,
        pull_started(watermark).watermark == watermark,
        pull_started(watermark).applied == 0,
        batch_taken(p, m, ResponseModel::Records { records, complete: false }, now).0 matches
            PullOutcome::More(q) ==> (pull_asked(q) matches RequestModel::Sync { since, limit }
            && limit == 512 && since > p.since && (forall|i: int|
            0 <= i < records.len() ==> (#[trigger] records[i]).record.issued_at <= since) && (
        exists|i: int| 0 <= i < records.len() && (#[trigger] records[i]).record.issued_at == since)),
{
    if records.len() > 0 {
        highest_of_a_batch(records, p.since);
    }
}

/// A record that is pushed does to a peer what publishing it there would do.
pub proof fn what_a_push_does(
    peer: ServerModel,
    s: SignedModel,
    uptime_secs: u64,
    now: u64,
    a: ActionModel,
    after: ServerModel,
)
    requires
        is_handled(peer, push_asked(s), uptime_secs, now, a, after),
    ensures
        after.store == put_result(peer.store, s, now).1,
        a is ReplyAndPush <==> put_result(peer.store, s, now).0 == Ok::<PutOutcome, ErrorModel>(
            PutOutcome::Stored,
        ),
{
}

} // verus!
