//! The server: what it answers, and what else an answer calls for.
//!
//! Handling a request ends in an [`Action`]: a reply, a reply that also sets a
//! push to the peers going, or a question to pass on upstream. The accepting of
//! connections, the asking and the pushing happen elsewhere.

use vstd::prelude::*;
use vstd::string::*;

use crate::error::{Error, ErrorModel, error_text, join4};
use crate::key::{PubKey, base58, key_len};
use crate::protocol::{
    ErrorCode, MAX_SYNC_BATCH, Request, RequestModel, Response, ResponseModel, StatusInfo,
    StatusModel,
};
use crate::record::{SignedModel, SignedRecord, expires_at, successor_of};
use crate::resolver::opt_signed;
use crate::store::{
    PutOutcome, Store, StoreModel, admitted, first_of, held, is_identity_list, is_sync_list,
    put_result,
};
use crate::text::{dec, push_dec};
use crate::upstream::{
    LinkReply, RelayedModel, Upstream, UpstreamModel, UpstreamQuery, link_taken, query_over,
    relay_asked, relay_hit,
};
use crate::VERSION;

verus! {

broadcast use key_len;

/// How often expired records are swept, in seconds.
pub const PURGE_INTERVAL: u64 = 60;

/// What a request calls for.
pub enum Action {
    /// Send this reply.
    Reply(Response),
    /// Send this reply, and forward the record to every peer.
    ReplyAndPush { reply: Response, record: SignedRecord },
    /// Ask upstream for `key` with `recurse` hops remaining, and reply with
    /// what comes of it.
    Ask { key: PubKey, recurse: u8 },
}

/// An [`Action`] taken by the views of its parts.
#[verifier::ext_equal]
pub enum ActionModel {
    Reply(ResponseModel),
    ReplyAndPush { reply: ResponseModel, record: SignedModel },
    Ask { key: Seq<u8>, recurse: u8 },
}

impl View for Action {
    type V = ActionModel;

    open spec fn view(&self) -> ActionModel {
        match *self {
            Action::Reply(r) => ActionModel::Reply(r@),
            Action::ReplyAndPush { reply, record } => ActionModel::ReplyAndPush {
                reply: reply@,
                record: record@,
            },
            Action::Ask { key, recurse } => ActionModel::Ask { key: key@, recurse },
        }
    }
}

/// Everything a request handler needs.
pub struct Server {
    pub store: Store,
    pub upstream: Upstream,
    /// How many peers records are exchanged with.
    pub peers: usize,
    /// Whether sync requests are answered.
    pub allow_sync: bool,
}

/// A [`Server`] taken by the views of its parts.
#[verifier::ext_equal]
pub struct ServerModel {
    pub store: StoreModel,
    pub upstream: UpstreamModel,
    pub peers: usize,
    pub allow_sync: bool,
}

impl View for Server {
    type V = ServerModel;

    open spec fn view(&self) -> ServerModel {
        ServerModel {
            store: self.store@,
            upstream: self.upstream@,
            peers: self.peers,
            allow_sync: self.allow_sync,
        }
    }
}

/// An answer that nobody holds the key.
pub open spec fn nothing_held() -> ResponseModel {
    ResponseModel::Answer { record: None, successor: None }
}

/// The answer for a key this server holds: its record, and when that forwards,
/// the record it forwards to, if that is held too.
pub open spec fn own_answer(m: StoreModel, s: SignedModel, now: u64) -> ResponseModel {
    ResponseModel::Answer {
        record: Some(s),
        successor: match successor_of(s.record) {
            Some(next) => held(m, next, now),
            None => None,
        },
    }
}

/// What a lookup calls for: an answer from the store, a question upstream while
/// there are hops and upstreams, or an answer that nothing is held.
pub open spec fn lookup_action(m: ServerModel, key: Seq<u8>, recurse: u8, now: u64) -> ActionModel {
    match held(m.store, key, now) {
        Some(s) => ActionModel::Reply(own_answer(m.store, s, now)),
        None => if recurse == 0 || m.upstream.addrs.len() == 0 {
            ActionModel::Reply(nothing_held())
        } else {
            ActionModel::Ask { key, recurse: (recurse - 1) as u8 }
        },
    }
}

/// The counters a server reports.
pub open spec fn status_model(m: ServerModel, uptime_secs: u64) -> StatusModel {
    StatusModel {
        records: m.store.records.len() as u64,
        cached: (match m.upstream.cache {
            Some(c) => c.len(),
            None => 0,
        }) as u64,
        peers: (m.peers as nat % 0x1_0000_0000) as u32,
        upstreams: (m.upstream.addrs.len() % 0x1_0000_0000) as u32,
        uptime_secs,
        version: VERSION@,
    }
}

/// The error code a refused record is answered with.
pub open spec fn refusal_code(e: ErrorModel) -> ErrorCode {
    match e {
        ErrorModel::Signature(_) => ErrorCode::BadSignature,
        ErrorModel::Revoked { .. } => ErrorCode::Revoked,
        ErrorModel::Superseded { .. } => ErrorCode::Superseded,
        ErrorModel::Delegation(_) => ErrorCode::BadDelegation,
        _ => ErrorCode::Malformed,
    }
}

/// What publishing a record calls for, and the store after it.
pub open spec fn publish_action(m: StoreModel, s: SignedModel, now: u64) -> (
    ActionModel,
    StoreModel,
) {
    let (r, after) = put_result(m, s, now);
    (
        match r {
            Ok(PutOutcome::Stored) => ActionModel::ReplyAndPush {
                reply: ResponseModel::Published {
                    serial: s.record.serial,
                    expires_at: expires_at(s.record),
                },
                record: s,
            },
            Ok(PutOutcome::Stale) => ActionModel::Reply(
                ResponseModel::Error {
                    code: ErrorCode::Stale,
                    message: "a record with serial >= "@ + dec(s.record.serial as nat)
                        + " is already held for "@ + base58(s.record.key),
                },
            ),
            Err(e) => ActionModel::Reply(
                ResponseModel::Error { code: refusal_code(e), message: error_text(e) },
            ),
        },
        after,
    )
}

/// How many records a sync reply may hold.
pub open spec fn sync_limit(limit: u16) -> nat {
    if limit < 1 {
        1
    } else if limit > MAX_SYNC_BATCH {
        MAX_SYNC_BATCH as nat
    } else {
        limit as nat
    }
}

/// `a` is what a sync request calls for.
pub open spec fn is_sync_action(a: ActionModel, m: ServerModel, since: u64, limit: u16, now: u64) -> bool {
    if !m.allow_sync {
        a == ActionModel::Reply(
            ResponseModel::Error {
                code: ErrorCode::NotAuthorized,
                message: "this server does not answer sync requests"@,
            },
        )
    } else {
        exists|l: Seq<SignedModel>| #[trigger]
            is_sync_list(l, m.store, since, now) && a == ActionModel::Reply(
                ResponseModel::Records {
                    records: first_of(l, sync_limit(limit)),
                    complete: l.len() <= sync_limit(limit),
                },
            )
    }
}

/// `a` is what an identity lookup calls for.
pub open spec fn is_identity_action(
    a: ActionModel,
    m: ServerModel,
    identity: Seq<u8>,
    now: u64,
) -> bool {
    exists|l: Seq<SignedModel>| #[trigger]
        is_identity_list(l, m.store, identity, now) && a == ActionModel::Reply(
            ResponseModel::Records {
                records: first_of(l, MAX_SYNC_BATCH as nat),
                complete: true,
            },
        )
}

/// `a` and `after` are what handling a request comes to.
pub open spec fn is_handled(
    m: ServerModel,
    req: RequestModel,
    uptime_secs: u64,
    now: u64,
    a: ActionModel,
    after: ServerModel,
) -> bool {
    match req {
        RequestModel::Lookup { key, recurse } => after == m && a == lookup_action(
            m,
            key,
            recurse,
            now,
        ),
        RequestModel::LookupIdentity { identity } => after == m && is_identity_action(
            a,
            m,
            identity,
            now,
        ),
        RequestModel::Publish { record } => {
            let (x, store) = publish_action(m.store, record, now);
            a == x && after == (ServerModel { store, ..m })
        },
        RequestModel::Status => after == m && a == ActionModel::Reply(
            ResponseModel::Status(status_model(m, uptime_secs)),
        ),
        RequestModel::Sync { since, limit } => after == m && is_sync_action(
            a,
            m,
            since,
            limit,
            now,
        ),
    }
}

/// The reply to a lookup that was passed on.
pub open spec fn relay_reply(
    r: std::result::Result<Option<RelayedModel>, ErrorModel>,
) -> ResponseModel {
    match r {
        Ok(Some(x)) => ResponseModel::Answer { record: Some(x.record), successor: x.successor },
        Ok(None) => nothing_held(),
        Err(e) => ResponseModel::Error { code: ErrorCode::UpstreamFailed, message: error_text(e) },
    }
}

fn code_for(e: &Error) -> (c: ErrorCode)
    ensures
        c == refusal_code(e@),
{
    match e {
        Error::Signature(_) => ErrorCode::BadSignature,
        Error::Revoked { .. } => ErrorCode::Revoked,
        Error::Superseded { .. } => ErrorCode::Superseded,
        Error::Delegation(_) => ErrorCode::BadDelegation,
        _ => ErrorCode::Malformed,
    }
}

fn answer(record: Option<SignedRecord>, successor: Option<SignedRecord>) -> (r: Response)
    ensures
        r@ == (ResponseModel::Answer {
            record: opt_signed(record),
            successor: opt_signed(successor),
        }),
{
    Response::Answer {
        record: match record {
            Some(s) => Some(Box::new(s)),
            None => None,
        },
        successor: match successor {
            Some(s) => Some(Box::new(s)),
            None => None,
        },
    }
}

impl Server {
    /// Store and cache are in order.
    pub open spec fn wf(&self) -> bool {
        self.store.wf() && self.upstream.wf()
    }

    pub fn new(store: Store, upstream: Upstream, peers: usize, allow_sync: bool) -> (s: Self)
        requires
            store.wf(),
            upstream.wf(),
        ensures
            s.wf(),
            s@ == (ServerModel { store: store@, upstream: upstream@, peers, allow_sync }),
    {
        Server { store, upstream, peers, allow_sync }
    }

    /// The counters, after `uptime_secs` seconds of service.
    pub fn status(&self, uptime_secs: u64) -> (info: StatusInfo)
        requires
            self.wf(),
        ensures
            info@ == status_model(self@, uptime_secs),
    {
        StatusInfo {
            records: self.store.len() as u64,
            cached: self.upstream.cached() as u64,
            peers: (self.peers as u64 % 0x1_0000_0000) as u32,
            upstreams: (self.upstream.len() as u64 % 0x1_0000_0000) as u32,
            uptime_secs,
            version: String::from_str(VERSION),
        }
    }

    /// Handle one request at `now`. Errors are returned to the caller as
    /// responses; this never fails the connection on a bad request.
    pub fn handle(&mut self, req: Request, uptime_secs: u64, now: u64) -> (a: Action)
        requires
            old(self).wf(),
        ensures
            final(self).wf(),
            is_handled(old(self)@, req@, uptime_secs, now, a@, final(self)@),
    {
        match req {
            Request::Lookup { key, recurse } => self.handle_lookup(key, recurse, now),
            Request::LookupIdentity { identity } => {
                let records = self.store.identity_records_at(
                    &identity,
                    MAX_SYNC_BATCH as usize,
                    now,
                );
                Action::Reply(Response::Records { records, complete: true })
            },
            Request::Publish { record } => self.handle_publish(*record, now),
            Request::Status => Action::Reply(Response::Status(self.status(uptime_secs))),
            Request::Sync { since, limit } => {
                if !self.allow_sync {
                    return Action::Reply(
                        Response::error(
                            ErrorCode::NotAuthorized,
                            "this server does not answer sync requests",
                        ),
                    );
                }
                let limit: usize = if limit < 1 {
                    1
                } else if limit > MAX_SYNC_BATCH {
                    MAX_SYNC_BATCH as usize
                } else {
                    limit as usize
                };
                let (records, complete) = self.store.since_at(since, limit, now);
                Action::Reply(Response::Records { records, complete })
            },
        }
    }

    fn handle_lookup(&self, key: PubKey, recurse: u8, now: u64) -> (a: Action)
        requires
            self.wf(),
        ensures
            a@ == lookup_action(self@, key@, recurse, now),
    {
        if let Some(record) = self.store.get_at(&key, now) {
            // A tombstone that forwards travels with the record it forwards
            // to, so the caller resolves a rotated key in one exchange.
            let successor = match record.record.successor() {
                Some(next) => self.store.get_at(&next, now),
                None => None,
            };
            return Action::Reply(answer(Some(record), successor));
        }
        // Not ours. Ask upstream, if we have any hops left to spend.

        if recurse == 0 || self.upstream.is_empty() {
            return Action::Reply(answer(None, None));
        }
        Action::Ask { key, recurse: recurse - 1 }
    }

    fn handle_publish(&mut self, record: SignedRecord, now: u64) -> (a: Action)
        requires
            old(self).wf(),
        ensures
            final(self).wf(),
            a@ == publish_action(old(self)@.store, record@, now).0,
            final(self)@ == (ServerModel {
                store: publish_action(old(self)@.store, record@, now).1,
                ..old(self)@
            }),
    {
        let key = record.key();
        let serial: u64 = record.record.serial;
        let expires_at: u64 = record.record.expires_at();
        match self.store.put_at(record.clone(), now) {
            Ok(PutOutcome::Stored) => Action::ReplyAndPush {
                reply: Response::Published { serial, expires_at },
                record,
            },
            Ok(PutOutcome::Stale) => {
                let mut m = String::from_str("a record with serial >= ");
                push_dec(&mut m, serial);
                m.append(" is already held for ");
                m.append(key.to_string().as_str());
                Action::Reply(Response::error(ErrorCode::Stale, m.as_str()))
            },
            Err(e) => Action::Reply(Response::error(code_for(&e), e.to_string().as_str())),
        }
    }

    /// What is already known here of a key that is to be asked for upstream,
    /// as a reply; nothing if it has to be asked for.
    pub fn recall(&mut self, key: &PubKey, now: u64) -> (r: Option<Response>)
        requires
            old(self).wf(),
        ensures
            final(self).wf(),
            match r {
                Some(x) => old(self)@.upstream.cache matches Some(m) && relay_hit(
                    m,
                    key@,
                    now,
                ) matches Some(o) && x@ == relay_reply(Ok(o)),
                None => old(self)@.upstream.cache matches Some(m) ==> relay_hit(
                    m,
                    key@,
                    now,
                ) is None,
            },
            final(self)@ == (ServerModel {
                upstream: (UpstreamModel {
                    cache: match old(self)@.upstream.cache {
                        Some(m) => Some(relay_asked(m, key@, now)),
                        None => None,
                    },
                    ..old(self)@.upstream
                }),
                ..old(self)@
            }),
    {
        match self.upstream.recall(key, now) {
            Some(Some(r)) => Some(answer(Some(r.record), r.successor)),
            Some(None) => Some(answer(None, None)),
            None => None,
        }
    }

    /// Take the reply of the upstream whose turn it is: the reply to the
    /// caller, or nothing, and then the next one is to be asked.
    pub fn take_upstream(&mut self, q: &mut UpstreamQuery, reply: LinkReply, now: u64) -> (r: Option<
        Response,
    >)
        requires
            old(self).wf(),
            old(q).wf(),
            old(q)@.next < old(self)@.upstream.addrs.len(),
        ensures
            final(self).wf(),
            final(q).wf(),
            ({
                let (x, u, p) = link_taken(
                    old(self)@.upstream,
                    old(q)@,
                    old(self)@.store,
                    reply@,
                    now,
                );
                &&& final(q)@ == p
                &&& final(self)@ == (ServerModel { upstream: u, ..old(self)@ })
                &&& match x {
                    Some(relayed) => r matches Some(y) && y@ == relay_reply(Ok(Some(relayed))),
                    None => r is None,
                }
            }),
    {
        match self.upstream.take_reply(q, &self.store, reply, now) {
            Some(r) => Some(answer(Some(r.record), r.successor)),
            None => None,
        }
    }

    /// The reply when nobody is left to ask.
    pub fn finish_upstream(&mut self, q: UpstreamQuery, now: u64) -> (r: Response)
        requires
            old(self).wf(),
        ensures
            final(self).wf(),
            r@ == relay_reply(
                match query_over(old(self)@.upstream, q@, now).0 {
                    Ok(_) => Ok(None),
                    Err(e) => Err(e),
                },
            ),
            final(self)@ == (ServerModel {
                upstream: query_over(old(self)@.upstream, q@, now).1,
                ..old(self)@
            }),
    {
        match self.upstream.finish(q, now) {
            Ok(()) => answer(None, None),
            Err(e) => Response::error(ErrorCode::UpstreamFailed, e.to_string().as_str()),
        }
    }
}

/// The reply to a request that could not be read.
pub fn malformed_reply(e: &Error) -> (r: Response)
    ensures
        r@ == (ResponseModel::Error { code: ErrorCode::Malformed, message: error_text(e@) }),
{
    Response::error(ErrorCode::Malformed, e.to_string().as_str())
}

/// `sqc://host:port/<key>`, ready to hand to a client.
pub fn connection_string(local_addr: &str, key: &PubKey) -> (out: String)
    ensures
        out@ == "sqc://"@ + local_addr@ + "/"@ + base58(key@),
{
    join4("sqc://", local_addr, "/", key.to_string().as_str())
}

// ---------------------------------------------------------------------------
// Snapshots
// ---------------------------------------------------------------------------

/// A snapshot is due: there is somewhere to write it, and the store has changed
/// since it was last written.
pub open spec fn snapshot_due(has_place: bool, revision: u64, written: u64) -> bool {
    has_place && revision != written
}

/// Which revision of the store was last written.
pub struct SnapshotClock {
    persisted: u64,
}

impl View for SnapshotClock {
    type V = u64;

    closed spec fn view(&self) -> u64 {
        self.persisted
    }
}

impl SnapshotClock {
    /// Nothing has been written yet.
    pub fn new() -> (c: Self)
        ensures
            c@ == u64::MAX,
    {
        SnapshotClock { persisted: u64::MAX }
    }

    /// Whether the store has somewhere to write its snapshot, and has changed
    /// since it was last written.
    pub fn due(&self, store: &Store) -> (b: bool)
        ensures
            b == snapshot_due(store.place() is Some, store@.revision, self@),
    {
        store.snapshot_path().is_some() && store.revision() != self.persisted
    }

    /// A snapshot of this revision was written.
    pub fn written(&mut self, revision: u64)
        ensures
            final(self)@ == revision,
    {
        self.persisted = revision;
    }
}

// ---------------------------------------------------------------------------
// Laws
// ---------------------------------------------------------------------------

/// Loops terminate: a question is passed on unchanged but for the hop it took,
/// and a server with none left answers only for itself.
pub proof fn a_hop_is_spent(m: ServerModel, key: Seq<u8>, recurse: u8, now: u64)
    ensures
        lookup_action(m, key, recurse, now) matches ActionModel::Ask { key: asked, recurse: left }
            ==> asked == key && left == recurse - 1,
        recurse == 0 ==> lookup_action(m, key, recurse, now) is Reply,
{
}

/// A key this server holds is answered from its own store, whatever the hop
/// budget.
pub proof fn own_records_are_answered(m: ServerModel, key: Seq<u8>, recurse: u8, now: u64)
    requires
        held(m.store, key, now) is Some,
    ensures
        lookup_action(m, key, recurse, now) == ActionModel::Reply(
            own_answer(m.store, held(m.store, key, now)->0, now),
        ),
{
}

/// Only publishing changes the store: lookups, listings, syncs and the
/// relaying of answers leave it as it was.
pub proof fn only_publishing_changes_the_store(
    m: ServerModel,
    req: Request,
    uptime_secs: u64,
    now: u64,
    a: ActionModel,
    after: ServerModel,
)
    requires
        is_handled(m, req@, uptime_secs, now, a, after),
        !(req@ is Publish),
    ensures
        after == m,
{
}

/// A refused publish is answered with why: the code names the kind of refusal,
/// and the store is as it was.
pub proof fn refusals_name_their_reason(m: StoreModel, s: SignedRecord, now: u64)
    requires
        put_result(m, s@, now).0 is Err,
    ensures
        publish_action(m, s@, now).1 == m,
        publish_action(m, s@, now).0 == ActionModel::Reply(
            ResponseModel::Error {
                code: refusal_code(put_result(m, s@, now).0->Err_0),
                message: error_text(put_result(m, s@, now).0->Err_0),
            },
        ),
{
}

/// A thief's publish over a retirement is refused as such.
pub proof fn publishing_over_a_retirement(m: StoreModel, s: SignedRecord, now: u64)
    requires
        m.records.dom().contains(s@.record.key),
        admitted(s@, now) is Ok,
    ensures
        m.records[s@.record.key].record.body is Superseded ==> (publish_action(
            m,
            s@,
            now,
        ).0 matches ActionModel::Reply(ResponseModel::Error { code, .. }) && code
            == ErrorCode::Superseded),
        m.records[s@.record.key].record.body is Revoked ==> (publish_action(
            m,
            s@,
            now,
        ).0 matches ActionModel::Reply(ResponseModel::Error { code, .. }) && code
            == ErrorCode::Revoked),
{
}

/// A record is pushed to the peers exactly when it was stored.
pub proof fn what_is_stored_is_pushed(m: StoreModel, s: SignedRecord, now: u64)
    ensures
        publish_action(m, s@, now).0 is ReplyAndPush <==> put_result(m, s@, now).0 == Ok::<
            PutOutcome,
            ErrorModel,
        >(PutOutcome::Stored),
{
}

} // verus!
