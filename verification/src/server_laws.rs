//! Laws of the server: what it replies to a publish, what it counts, and what
//! comes of retiring a key.

use vstd::prelude::*;
use vstd::string::*;
use vstd::utf8::*;

use crate::delegation::{Delegation, DelegationModel, delegation_message};
use crate::error::{ErrorModel, error_text};
use crate::key::{base58, ed25519_verifies, is_curve_point, key_len};
use crate::lifetimes::what_is_stored;
use crate::protocol::{ErrorCode, RequestModel, ResponseModel};
use crate::record::{
    BodyModel, RecordModel, SignedModel, record_bytes, record_message, retirement_of, revocation_of,
    revoked_model, signed_verified, superseded_model, validated,
};
use crate::server::{
    ActionModel, ServerModel, is_handled, publish_action, refusal_code, snapshot_due, status_model,
};
use crate::store::{PutOutcome, StoreModel, admitted, held, put_result, swept};

verus! {

broadcast use key_len;

// ---------------------------------------------------------------------------
// Publishing
// ---------------------------------------------------------------------------

/// A record that is stored is confirmed with its serial and the second it will
/// expire in, and is pushed on just as it is; nothing else is pushed.
pub proof fn what_a_publisher_is_told(m: StoreModel, s: SignedModel, now: u64)
    ensures
        publish_action(m, s, now).1 == put_result(m, s, now).1,
        match put_result(m, s, now).0 {
            Ok(PutOutcome::Stored) => {
                &&& publish_action(m, s, now).0 matches ActionModel::ReplyAndPush { reply, record }
                &&& record == s
                &&& reply matches ResponseModel::Published { serial, expires_at }
                &&& serial == s.record.serial
                &&& s.record.body is Live && s.record.issued_at + s.record.ttl
                    <= 0xffff_ffff_ffff_ffff ==> expires_at == s.record.issued_at + s.record.ttl
                &&& !(s.record.body is Live) ==> expires_at == 0xffff_ffff_ffff_ffff
            },
            Ok(PutOutcome::Stale) => publish_action(m, s, now).0 matches ActionModel::Reply(
                ResponseModel::Error { code, .. },
            ) && code == ErrorCode::Stale,
            Err(e) => publish_action(m, s, now).0 matches ActionModel::Reply(
                ResponseModel::Error { code, message },
            ) && message == error_text(e) && code != ErrorCode::Stale,
        },
{
}

/// Each kind of refusal has its code.
pub proof fn which_code_a_refusal_has(e: ErrorModel)
    ensures
        refusal_code(e) == ErrorCode::BadSignature <==> e is Signature,
        refusal_code(e) == ErrorCode::Revoked <==> e is Revoked,
        refusal_code(e) == ErrorCode::Superseded <==> e is Superseded,
        refusal_code(e) == ErrorCode::BadDelegation <==> e is Delegation,
        refusal_code(e) == ErrorCode::Malformed <==> !(e is Signature || e is Revoked
            || e is Superseded || e is Delegation),
{
}

/// Why a record is refused: for a retired key, because it is retired; for a
/// key of another identity, because of the delegation; for a signature that
/// does not verify under a delegation that does, because of the signature.
pub proof fn why_a_record_is_refused(m: StoreModel, s: SignedModel, now: u64)
    ensures
        admitted(s, now) is Ok && m.records.dom().contains(s.record.key)
            && m.records[s.record.key].record.body is Revoked ==> (publish_action(
            m,
            s,
            now,
        ).0 matches ActionModel::Reply(ResponseModel::Error { code, .. }) && code
            == ErrorCode::Revoked),
        admitted(s, now) is Ok && m.records.dom().contains(s.record.key)
            && m.records[s.record.key].record.body is Superseded ==> (publish_action(
            m,
            s,
            now,
        ).0 matches ActionModel::Reply(ResponseModel::Error { code, .. }) && code
            == ErrorCode::Superseded),
        admitted(s, now) is Ok && m.bindings.dom().contains(s.record.key)
            && m.bindings[s.record.key] != s.record.delegation.identity && (m.records.dom().contains(
            s.record.key,
        ) ==> m.records[s.record.key].record.body is Live) ==> (publish_action(
            m,
            s,
            now,
        ).0 matches ActionModel::Reply(ResponseModel::Error { code, .. }) && code
            == ErrorCode::BadDelegation),
        validated(s.record) is Ok && is_curve_point(s.record.delegation.identity)
            && ed25519_verifies(
            s.record.delegation.identity,
            delegation_message(
                s.record.delegation.identity,
                s.record.key,
                s.record.delegation.not_after,
            ),
            s.record.delegation.signature,
        ) && !ed25519_verifies(
            if s.record.body is Live {
                s.record.key
            } else {
                s.record.delegation.identity
            },
            record_message(record_bytes(s.record)),
            s.signature,
        ) ==> (publish_action(m, s, now).0 matches ActionModel::Reply(
            ResponseModel::Error { code, .. },
        ) && code == ErrorCode::BadSignature),
        validated(s.record) is Ok && !ed25519_verifies(
            s.record.delegation.identity,
            delegation_message(
                s.record.delegation.identity,
                s.record.key,
                s.record.delegation.not_after,
            ),
            s.record.delegation.signature,
        ) ==> (publish_action(m, s, now).0 matches ActionModel::Reply(
            ResponseModel::Error { code, .. },
        ) && code == ErrorCode::BadDelegation),
{
}

/// What the error of a retired key says: which key, and what became of it.
pub proof fn what_a_retirement_says(r: RecordModel)
    ensures
        retirement_of(r) is None <==> r.body is Live,
        r.body matches BodyModel::Superseded { successor, .. } ==> (retirement_of(r) matches Some(
            ErrorModel::Superseded { key, successor: next },
        ) && key == base58(r.key) && next == base58(successor)),
        r.body matches BodyModel::Revoked { reason } ==> (retirement_of(r) matches Some(
            ErrorModel::Revoked { key, successor, reason: why },
        ) && key == base58(r.key) && successor is None && (reason.len() > 0 ==> why == reason)),
        revocation_of(r) is Some <==> r.body is Revoked,
{
}

// ---------------------------------------------------------------------------
// Counting
// ---------------------------------------------------------------------------

/// The counters are those of the store, of what was relayed, of the peers and
/// of the upstreams.
pub proof fn what_a_status_counts(m: ServerModel, uptime_secs: u64)
    requires
        m.store.records.len() <= 0xffff_ffff,
        m.upstream.cache is Some ==> m.upstream.cache->0.len() <= 0xffff_ffff,
        m.peers <= 0xffff_ffff,
        m.upstream.addrs.len() <= 0xffff_ffff,
    ensures
        ({
            let s = status_model(m, uptime_secs);
            &&& s.records == m.store.records.len()
            &&& m.upstream.cache matches Some(c) ==> s.cached == c.len()
            &&& m.upstream.cache is None ==> s.cached == 0
            &&& s.peers == m.peers
            &&& s.upstreams == m.upstream.addrs.len()
            &&& s.uptime_secs == uptime_secs
            &&& s.version == crate::VERSION@
        }),
{
}

/// Each request is answered for what it asks: a lookup and a listing and a
/// status leave the server as it was, and only a publish changes its store.
pub proof fn each_request_gets_its_answer(
    m: ServerModel,
    req: RequestModel,
    uptime_secs: u64,
    now: u64,
    a: ActionModel,
    after: ServerModel,
)
    requires
        is_handled(m, req, uptime_secs, now, a, after),
    ensures
        !(req is Publish) ==> after == m,
        after.upstream == m.upstream && after.peers == m.peers && after.allow_sync == m.allow_sync,
        req matches RequestModel::Publish { record } ==> after.store == put_result(
            m.store,
            record,
            now,
        ).1,
        req is Status ==> a is Reply,
        req is Sync && !m.allow_sync ==> (a matches ActionModel::Reply(
            ResponseModel::Error { code, .. },
        ) && code == ErrorCode::NotAuthorized),
        req is Sync && m.allow_sync ==> a matches ActionModel::Reply(ResponseModel::Records { .. }),
        req is LookupIdentity ==> a matches ActionModel::Reply(ResponseModel::Records { .. }),
        a is ReplyAndPush ==> req is Publish,
        a is Ask ==> req is Lookup,
{
}

// ---------------------------------------------------------------------------
// Retiring
// ---------------------------------------------------------------------------

/// What a record holds as it is made: what it was given, a ttl of a week where
/// it retires its key, and the time it was made.
pub proof fn what_records_are_made_of(
    key: Seq<u8>,
    delegation: DelegationModel,
    serial: u64,
    ttl: u32,
    successor: Seq<u8>,
    reason: Seq<char>,
    now: u64,
)
    ensures
        ({
            let r = superseded_model(key, delegation, serial, successor, reason, now);
            &&& r.key == key && r.delegation == delegation && r.serial == serial
            &&& r.issued_at == now && r.ttl == 604_800
            &&& r.body matches BodyModel::Superseded { successor: next, reason: why } && next
                == successor && why == reason
        }),
        ({
            let r = revoked_model(key, delegation, serial, reason, now);
            &&& r.key == key && r.delegation == delegation && r.serial == serial
            &&& r.issued_at == now && r.ttl == 604_800
            &&& r.body matches BodyModel::Revoked { reason: why } && why == reason
        }),
{
}

/// The identity behind a key can always retire it: a retirement that it signed
/// replaces whatever live record is held, whatever its serial, and is answered
/// from then on, at any time.
pub proof fn a_retirement_takes_effect(m: StoreModel, s: SignedModel, now: u64, later: u64)
    requires
        !(s.record.body is Live),
        validated(s.record) is Ok,
        signed_verified(s) is Ok,
        s.record.issued_at <= now + 300,
        m.bindings.dom().contains(s.record.key) ==> m.bindings[s.record.key]
            == s.record.delegation.identity,
        m.records.dom().contains(s.record.key) ==> m.records[s.record.key].record.body is Live,
    ensures
        put_result(m, s, now).0 == Ok::<PutOutcome, ErrorModel>(PutOutcome::Stored),
        held(put_result(m, s, now).1, s.record.key, later) == Some(s),
{
    what_is_stored(m, s, now);
}

/// After a retirement nothing is stored for the key any more.
pub proof fn nothing_follows_a_retirement(m: StoreModel, s: SignedModel, now: u64)
    requires
        m.records.dom().contains(s.record.key),
        !(m.records[s.record.key].record.body is Live),
    ensures
        put_result(m, s, now).0 is Err,
        put_result(m, s, now).1 == m,
{
}

// ---------------------------------------------------------------------------
// Saving
// ---------------------------------------------------------------------------

/// A store that has somewhere to be saved is saved once for each change: after
/// a record was stored or swept it is due, and as it was saved it is not.
pub proof fn a_change_is_saved(m: StoreModel, s: SignedModel, now: u64)
    ensures
        !snapshot_due(true, m.revision, m.revision),
        forall|revision: u64, written: u64| !#[trigger] snapshot_due(false, revision, written),
        put_result(m, s, now).0 == Ok::<PutOutcome, ErrorModel>(PutOutcome::Stored)
            <==> snapshot_due(true, put_result(m, s, now).1.revision, m.revision),
        swept(m, now).records != m.records ==> snapshot_due(
            true,
            swept(m, now).revision,
            m.revision,
        ),
{
    assert(swept(m, now).revision == m.revision ==> swept(m, now).records =~= m.records);
}

} // verus!
