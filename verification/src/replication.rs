//! Replication between sqns servers.
//!
//! Peers exchange whole signed records, so replication needs no trust between
//! servers: a peer that alters a record breaks its signature, and a peer that
//! replays an old one loses to the higher serial already held. Two mechanisms
//! run together: a push as soon as a record is accepted, for latency, and a
//! periodic anti-entropy pull, for anything a push missed.

use vstd::prelude::*;
use vstd::string::*;

use crate::error::{Error, ErrorModel, Result, join2};
use crate::key::key_len;
use crate::protocol::{MAX_SYNC_BATCH, Request, RequestModel, Response, ResponseModel, server_error};
use crate::record::{SignedModel, SignedRecord, is_terminal, signed_models};
use crate::store::{PutOutcome, Store, StoreModel, admitted, held_soundly, put_result, store_inv};

use crate::shown::response_shown;

verus! {

broadcast use key_len;

/// A pull from one peer: everything it issued since a watermark.
pub struct Pull {
    since: u64,
    watermark: u64,
    applied: u64,
}

/// A [`Pull`]'s numbers.
#[verifier::ext_equal]
pub struct PullModel {
    /// Where the next batch starts.
    pub since: u64,
    /// The highest time of issue pulled so far: where the next pull starts.
    pub watermark: u64,
    /// How many records were new here.
    pub applied: u64,
}

impl View for Pull {
    type V = PullModel;

    closed spec fn view(&self) -> PullModel {
        PullModel { since: self.since, watermark: self.watermark, applied: self.applied }
    }
}

/// The latest time of issue in a batch; `since` for an empty one.
pub open spec fn batch_high(v: Seq<SignedModel>, since: u64) -> u64
    decreases v.len(),
{
    if v.len() == 0 {
        since
    } else if v.len() == 1 {
        v[0].record.issued_at
    } else {
        let h = batch_high(v.drop_last(), since);
        if v.last().record.issued_at > h {
            v.last().record.issued_at
        } else {
            h
        }
    }
}

/// The later of two times.
pub open spec fn later_of(a: u64, b: u64) -> u64 {
    if a < b {
        b
    } else {
        a
    }
}

/// A store after putting a batch of records one after another, and how many of
/// them it stored.
pub open spec fn merged(m: StoreModel, v: Seq<SignedModel>, now: u64) -> (StoreModel, nat)
    decreases v.len(),
{
    if v.len() == 0 {
        (m, 0)
    } else {
        let (before, n) = merged(m, v.drop_last(), now);
        let (r, after) = put_result(before, v.last(), now);
        (
            after,
            if r == Ok::<PutOutcome, ErrorModel>(PutOutcome::Stored) {
                n + 1
            } else {
                n
            },
        )
    }
}

/// What a reply to a sync request comes to.
#[verifier::ext_equal]
pub enum PullOutcome {
    /// The pull failed.
    Failed(ErrorModel),
    /// Everything there was has been pulled, or no more can be.
    Done(PullModel),
    /// More remains: ask again.
    More(PullModel),
}

/// What a reply to a sync request comes to, and the store after it.
pub open spec fn batch_taken(p: PullModel, m: StoreModel, reply: ResponseModel, now: u64) -> (
    PullOutcome,
    StoreModel,
) {
    match reply {
        ResponseModel::Records { records, complete } => {
            let high = batch_high(records, p.since);
            let watermark = later_of(p.watermark, high);
            let (after, n) = merged(m, records, now);
            let applied = if p.applied + n > u64::MAX {
                u64::MAX
            } else {
                (p.applied + n) as u64
            };
            if complete || high <= p.since {
                (PullOutcome::Done(PullModel { since: p.since, watermark, applied }), after)
            } else {
                (PullOutcome::More(PullModel { since: high, watermark, applied }), after)
            }
        },
        ResponseModel::Error { .. } => (PullOutcome::Failed(server_error(reply)), m),
        other => (
            PullOutcome::Failed(
                ErrorModel::Protocol("unexpected sync response: "@ + response_shown(other)),
            ),
            m,
        ),
    }
}

/// A pull of everything issued at or after a watermark, before its first
/// batch.
pub open spec fn pull_started(watermark: u64) -> PullModel {
    PullModel { since: watermark, watermark, applied: 0 }
}

/// The request for the next batch of a pull.
pub open spec fn pull_asked(p: PullModel) -> RequestModel {
    RequestModel::Sync { since: p.since, limit: MAX_SYNC_BATCH }
}

/// The request that forwards a record to a peer.
pub open spec fn push_asked(s: SignedModel) -> RequestModel {
    RequestModel::Publish { record: s }
}

fn high_of(v: &Vec<SignedRecord>, since: u64) -> (h: u64)
    ensures
        h == batch_high(signed_models(v@), since),
{
    let ghost all = signed_models(v@);
    if v.len() == 0 {
        return since;
    }
    let mut h: u64 = v[0].record.issued_at;
    let mut i: usize = 1;
    while i < v.len()
        invariant
            1 <= i <= v@.len(),
            all == signed_models(v@),
            h == batch_high(all.subrange(0, i as int), since),
        decreases v@.len() - i,
    {
        proof {
            let done = all.subrange(0, i + 1);
            assert(done.drop_last() =~= all.subrange(0, i as int));
            assert(done.last() == v@[i as int]@);
        }
        if v[i].record.issued_at > h {
            h = v[i].record.issued_at;
        }
        i += 1;
    }
    proof {
        assert(all.subrange(0, i as int) =~= all);
    }
    h
}

/// Put a batch of records one after another; returns how many were new.
/// Records that are refused are passed over: a peer that sends one loses
/// nothing but that record.
pub fn merge_records(store: &mut Store, records: &Vec<SignedRecord>, now: u64) -> (applied: u64)
    requires
        old(store).wf(),
    ensures
        final(store).wf(),
        final(store).place() == old(store).place(),
        final(store)@ == merged(old(store)@, signed_models(records@), now).0,
        applied == merged(old(store)@, signed_models(records@), now).1,
{
    let ghost m = store@;
    let ghost all = signed_models(records@);
    let mut applied: u64 = 0;
    let mut i: usize = 0;
    proof {
        assert(all.subrange(0, 0) =~= seq![]);
    }
    while i < records.len()
        invariant
            i <= records@.len(),
            all == signed_models(records@),
            store.wf(),
            store.place() == old(store).place(),
            (store@, applied as nat) == merged(m, all.subrange(0, i as int), now),
            applied <= i,
        decreases records@.len() - i,
    {
        proof {
            let done = all.subrange(0, i + 1);
            assert(done.drop_last() =~= all.subrange(0, i as int));
            assert(done.last() == records@[i as int]@);
        }
        match store.put_at(records[i].clone(), now) {
            Ok(put) => if put.stored() {
                applied = applied + 1;
            },
            Err(_) => {},
        }
        i += 1;
    }
    proof {
        assert(all.subrange(0, i as int) =~= all);
    }
    applied
}

impl Pull {
    /// A pull of everything issued at or after `watermark`.
    pub fn start(watermark: u64) -> (p: Self)
        ensures
            p@ == pull_started(watermark),
    {
        Pull { since: watermark, watermark, applied: 0 }
    }

    /// The request for the next batch.
    pub fn request(&self) -> (r: Request)
        ensures
            r@ == pull_asked(self@),
    {
        Request::Sync { since: self.since, limit: MAX_SYNC_BATCH }
    }

    /// Where the next pull from this peer starts.
    pub fn watermark(&self) -> (w: u64)
        ensures
            w == self@.watermark,
    {
        self.watermark
    }

    /// How many records were new here.
    pub fn applied(&self) -> (n: u64)
        ensures
            n == self@.applied,
    {
        self.applied
    }

    /// Take a reply: whether to ask again.
    ///
    /// A full batch that makes no progress ends the pull: the records that
    /// remain all share the cursor's second, so another pull would return the
    /// same batch.
    pub fn take(&mut self, store: &mut Store, reply: Response, now: u64) -> (r: Result<bool>)
        requires
            old(store).wf(),
        ensures
            final(store).wf(),
            final(store).place() == old(store).place(),
            final(store)@ == batch_taken(old(self)@, old(store)@, reply@, now).1,
            match batch_taken(old(self)@, old(store)@, reply@, now).0 {
                PullOutcome::Failed(e) => r matches Err(x) && x@ == e && final(self)@ == old(self)@,
                PullOutcome::Done(p) => r matches Ok(more) && !more && final(self)@ == p,
                PullOutcome::More(p) => r matches Ok(more) && more && final(self)@ == p,
            },
    {
        match reply {
            Response::Records { records, complete } => {
                let high: u64 = high_of(&records, self.since);
                let new: u64 = merge_records(store, &records, now);
                self.applied = self.applied.saturating_add(new);
                if self.watermark < high {
                    self.watermark = high;
                }
                if complete || high <= self.since {
                    return Ok(false);
                }
                self.since = high;
                Ok(true)
            },
            other => {
                if let Response::Error { .. } = &other {
                    return Err(other.into_server_error());
                }
                Err(Error::Protocol(join2("unexpected sync response: ", other.shown().as_str())))
            },
        }
    }
}

/// The request that forwards a freshly accepted record to a peer.
pub fn push_request(record: &SignedRecord) -> (r: Request)
    ensures
        r@ == push_asked(record@),
{
    Request::Publish { record: Box::new(record.clone()) }
}

// ---------------------------------------------------------------------------
// Laws
// ---------------------------------------------------------------------------

/// A pull that goes on has moved its cursor forward, so it comes to an end.
pub proof fn pulls_make_progress(p: PullModel, m: StoreModel, reply: Response, now: u64)
    ensures
        batch_taken(p, m, reply@, now).0 matches PullOutcome::More(q) ==> q.since > p.since,
{
}

/// What holds of every pull: the next batch starts no later than the highest
/// time pulled so far.
pub open spec fn pull_inv(p: PullModel) -> bool {
    p.since <= p.watermark
}

/// The highest time of a batch is that of one of its records, and no record is
/// later.
proof fn batch_high_is_highest(v: Seq<SignedModel>, since: u64)
    requires
        v.len() > 0,
    ensures
        forall|i: int|
            0 <= i < v.len() ==> (#[trigger] v[i]).record.issued_at <= batch_high(v, since),
        exists|i: int|
            0 <= i < v.len() && (#[trigger] v[i]).record.issued_at == batch_high(v, since),
    decreases v.len(),
{
    if v.len() > 1 {
        let t = v.drop_last();
        batch_high_is_highest(t, since);
        assert forall|i: int| 0 <= i < v.len() implies (#[trigger] v[i]).record.issued_at
            <= batch_high(v, since) by {
            if i < t.len() {
                assert(t[i] == v[i]);
            }
        }
        let k = choose|i: int|
            0 <= i < t.len() && (#[trigger] t[i]).record.issued_at == batch_high(t, since);
        assert(v[k] == t[k]);
        assert(v[v.len() - 1] == v.last());
    } else {
        assert(v[0].record.issued_at == batch_high(v, since));
    }
}

/// The watermark is the highest time of issue pulled so far: whatever a peer
/// sends it never falls, it covers every record of the batch, and it rises
/// only to the time of one of them.
pub proof fn watermarks_never_fall(
    p: PullModel,
    m: StoreModel,
    records: Seq<SignedModel>,
    complete: bool,
    now: u64,
)
    requires
        pull_inv(p),
    ensures
        match batch_taken(p, m, ResponseModel::Records { records, complete }, now).0 {
            PullOutcome::Failed(_) => false,
            PullOutcome::Done(q) | PullOutcome::More(q) => {
                &&& pull_inv(q)
                &&& q.watermark >= p.watermark
                &&& forall|i: int|
                    0 <= i < records.len() ==> (#[trigger] records[i]).record.issued_at
                        <= q.watermark
                &&& q.watermark == p.watermark || exists|i: int|
                    0 <= i < records.len() && (#[trigger] records[i]).record.issued_at
                        == q.watermark
            },
        },
{
    if records.len() > 0 {
        batch_high_is_highest(records, p.since);
    }
}

/// Replication needs no trust: whatever a peer sends, every record in the store
/// stays sound, and what was retired or bound before stays so.
pub proof fn replication_needs_no_trust(
    m: StoreModel,
    v: Seq<SignedModel>,
    now: u64,
    key: Seq<u8>,
)
    requires
        store_inv(m),
    ensures
        store_inv(merged(m, v, now).0),
        m.bindings.dom().contains(key) ==> merged(m, v, now).0.bindings.dom().contains(key)
            && merged(m, v, now).0.bindings[key] == m.bindings[key],
        m.records.dom().contains(key) && is_terminal(m.records[key].record) ==> merged(
            m,
            v,
            now,
        ).0.records.dom().contains(key) && merged(m, v, now).0.records[key] == m.records[key],
    decreases v.len(),
{
    if v.len() > 0 {
        replication_needs_no_trust(m, v.drop_last(), now, key);
        let before = merged(m, v.drop_last(), now).0;
        let after = merged(m, v, now).0;
        assert forall|k: Seq<u8>| #[trigger] after.records.dom().contains(k) implies held_soundly(
            after,
            k,
        ) by {
            if k != v.last().record.key {
                assert(before.records.dom().contains(k));
                assert(held_soundly(before, k));
            } else if before.records.dom().contains(k) {
                assert(held_soundly(before, k));
            }
        }
    }
}

/// A retirement replicates: once a batch brings one that is admitted, for a key
/// that is not bound to another identity, the key is retired here too.
pub proof fn retirements_replicate(m: StoreModel, s: SignedRecord, now: u64)
    requires
        is_terminal(s@.record),
        admitted(s@, now) is Ok,
        m.bindings.dom().contains(s@.record.key) ==> m.bindings[s@.record.key]
            == s@.record.delegation.identity,
    ensures
        merged(m, seq![s@], now).0.records.dom().contains(s@.record.key),
        is_terminal(merged(m, seq![s@], now).0.records[s@.record.key].record),
{
    assert(seq![s@].drop_last() =~= seq![]);
    assert(merged(m, seq![s@].drop_last(), now) == (m, 0nat));
}

} // verus!
