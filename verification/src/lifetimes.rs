//! Laws of records in plain numbers: how long a record lives, which of two
//! wins, what makes one sound, and what a store admits.

use vstd::prelude::*;
use vstd::string::*;
use vstd::utf8::*;

use crate::delegation::{DelegationModel, delegation_expired, delegation_message};
use crate::error::ErrorModel;
use crate::key::{
    SigningKey, base58, ed25519_signature, ed25519_verifies, is_curve_point, key_len, public_key,
};
use crate::record::{
    BodyModel, RecordModel, SignedModel, answer_verified, endpoints_of, expires_at, is_expired,
    record_bytes, record_message, record_signed, signed_verified, successor_of, supersedes,
    validated,
};
use crate::store::{PutOutcome, StoreModel, admitted, held, put_result, swept};
use crate::text::dec;

verus! {

broadcast use key_len;

// ---------------------------------------------------------------------------
// Time
// ---------------------------------------------------------------------------

/// A live record lives from its issue for exactly its ttl, all of it: it has
/// expired if and only if that many seconds have passed. Only where the sum
/// does not fit is the end that of the clock itself. A retirement never
/// expires.
pub proof fn a_record_lives_for_its_ttl(r: RecordModel, now: u64)
    ensures
        r.body is Live && r.issued_at + r.ttl <= 0xffff_ffff_ffff_ffff ==> {
            &&& is_expired(r, now) <==> now >= r.issued_at + r.ttl
            &&& expires_at(r) == r.issued_at + r.ttl
        },
        r.body is Live && r.issued_at + r.ttl > 0xffff_ffff_ffff_ffff ==> {
            &&& is_expired(r, now) <==> now == 0xffff_ffff_ffff_ffff
            &&& expires_at(r) == 0xffff_ffff_ffff_ffff
        },
        !(r.body is Live) ==> !is_expired(r, now) && expires_at(r) == 0xffff_ffff_ffff_ffff,
{
}

/// A longer ttl is a longer life: a second more of ttl is a second more before
/// the record expires.
pub proof fn a_second_of_ttl_is_a_second_of_life(r: RecordModel, now: u64)
    requires
        r.body is Live,
        r.ttl < 0xffff_ffff,
        r.issued_at + r.ttl < 0xffff_ffff_ffff_ffff,
        now < 0xffff_ffff_ffff_ffff,
    ensures
        is_expired(RecordModel { ttl: (r.ttl + 1) as u32, ..r }, (now + 1) as u64) <==> is_expired(
            r,
            now,
        ),
{
}

/// A delegation is in force until its date and no longer, and for ever where
/// the date is the last one there is.
pub proof fn a_delegation_ends_on_its_date(d: DelegationModel, now: u64)
    ensures
        d.not_after < 0xffff_ffff_ffff_ffff ==> (delegation_expired(d, now) <==> now
            >= d.not_after),
        d.not_after == 0xffff_ffff_ffff_ffff ==> !delegation_expired(d, now),
{
}

/// A live record a store holds is answered as long as it lives, and not a
/// second longer; a retirement is answered for ever.
pub proof fn what_is_held_is_answered_while_it_lives(m: StoreModel, key: Seq<u8>, now: u64)
    requires
        m.records.dom().contains(key),
    ensures
        m.records[key].record.body is Live && now < 0xffff_ffff_ffff_ffff ==> (held(m, key, now)
            == Some(m.records[key]) <==> now < m.records[key].record.issued_at
            + m.records[key].record.ttl),
        !(m.records[key].record.body is Live) ==> held(m, key, now) == Some(m.records[key]),
        held(m, key, now) is Some ==> held(m, key, now) == Some(m.records[key]),
{
}

/// A key that has no record is not answered.
pub proof fn what_is_not_held_is_not_answered(m: StoreModel, key: Seq<u8>, now: u64)
    ensures
        !m.records.dom().contains(key) ==> held(m, key, now) is None,
{
}

// ---------------------------------------------------------------------------
// Precedence
// ---------------------------------------------------------------------------

/// Of two live records the one with the higher serial wins, and with equal
/// serials the one issued later; a retirement wins over every live record and
/// nothing wins over a retirement.
pub proof fn the_higher_serial_wins(a: RecordModel, b: RecordModel)
    ensures
        a.body is Live && b.body is Live && a.serial != b.serial ==> (supersedes(a, b)
            <==> a.serial > b.serial),
        a.body is Live && b.body is Live && a.serial == b.serial ==> (supersedes(a, b)
            <==> a.issued_at > b.issued_at),
        !(a.body is Live) && b.body is Live ==> supersedes(a, b),
        !(b.body is Live) ==> !supersedes(a, b),
{
}

// ---------------------------------------------------------------------------
// Soundness
// ---------------------------------------------------------------------------

/// A record is sound when its keys are points of the curve, its identity is
/// another key than its own, and its body keeps its limits: a ttl from thirty
/// seconds to a week and at most 255 endpoints, or a reason of at most 256
/// bytes and, where there is a successor, one that is another point.
pub proof fn what_makes_a_record_sound(r: RecordModel)
    ensures
        validated(r) is Ok <==> {
            &&& is_curve_point(r.key)
            &&& is_curve_point(r.delegation.identity)
            &&& r.delegation.identity != r.key
            &&& match r.body {
                BodyModel::Live { endpoints } => 30 <= r.ttl <= 604_800 && endpoints.len() <= 255,
                BodyModel::Superseded { successor, reason } => is_curve_point(successor)
                    && successor != r.key && encode_utf8(reason).len() <= 256,
                BodyModel::Revoked { reason } => encode_utf8(reason).len() <= 256,
            }
        },
{
}

/// A signed record is genuine when the identity has signed for the key and the
/// date in the delegation, and the record's bytes are signed by the key itself
/// where it is live, by the identity where it is not.
pub proof fn what_makes_a_record_genuine(s: SignedModel)
    ensures
        signed_verified(s) is Ok <==> {
            let d = s.record.delegation;
            let signer = if s.record.body is Live {
                s.record.key
            } else {
                d.identity
            };
            &&& is_curve_point(d.identity)
            &&& ed25519_verifies(
                d.identity,
                delegation_message(d.identity, s.record.key, d.not_after),
                d.signature,
            )
            &&& is_curve_point(signer)
            &&& ed25519_verifies(signer, record_message(record_bytes(s.record)), s.signature)
        },
{
}

/// Signing takes the key itself for a live record and its identity for a
/// retirement. It succeeds for no other key, and changes nothing in the record.
pub proof fn who_may_sign(r: RecordModel, sk: SigningKey)
    ensures
        r.body is Live ==> (record_signed(r, sk) is Ok <==> public_key(sk) == r.key),
        !(r.body is Live) ==> (record_signed(r, sk) is Ok <==> public_key(sk)
            == r.delegation.identity),
        record_signed(r, sk) matches Ok(s) ==> s.record == r && s.signature == ed25519_signature(
            sk@,
            record_message(record_bytes(r)),
        ),
{
}

/// A record forwards to the successor it names, and only one that is
/// superseded names any; only a live one has endpoints.
pub proof fn what_a_record_offers(r: RecordModel)
    ensures
        forall|next: Seq<u8>| #[trigger]
            successor_of(r) == Some(next) <==> (r.body matches BodyModel::Superseded {
                successor,
                ..
            } && successor == next),
        r.body matches BodyModel::Live { endpoints } ==> endpoints_of(r) == endpoints,
        !(r.body is Live) ==> endpoints_of(r).len() == 0,
{
}

// ---------------------------------------------------------------------------
// Answers
// ---------------------------------------------------------------------------

/// An answer is accepted when it is for the key asked for, genuine and sound,
/// and, where it is live, within its ttl and its delegation; and only then. How
/// old it is otherwise does not matter.
pub proof fn answers_accepted_in_time(s: SignedModel, asked: Seq<u8>, now: u64)
    requires
        now < 0xffff_ffff_ffff_ffff || s.record.issued_at + s.record.ttl <= 0xffff_ffff_ffff_ffff,
    ensures
        answer_verified(s, asked, now) is Ok <==> {
            &&& s.record.key == asked
            &&& signed_verified(s) is Ok
            &&& validated(s.record) is Ok
            &&& s.record.body is Live ==> now < s.record.issued_at + s.record.ttl
            &&& s.record.body is Live ==> now < s.record.delegation.not_after
                || s.record.delegation.not_after == 0xffff_ffff_ffff_ffff
        },
{
}

/// An answer refused for its age says by how many seconds it is too old.
pub proof fn an_old_answer_says_how_old(s: SignedModel, asked: Seq<u8>, now: u64)
    requires
        now < 0xffff_ffff_ffff_ffff || s.record.issued_at + s.record.ttl <= 0xffff_ffff_ffff_ffff,
    ensures
        answer_verified(s, asked, now) matches Err(ErrorModel::Expired(ago)) ==> s.record.body is Live
            && s.record.issued_at + s.record.ttl + ago == now,
        admitted(s, now) matches Err(ErrorModel::Expired(ago)) ==> s.record.body is Live
            && s.record.issued_at + s.record.ttl + ago == now,
{
}

// ---------------------------------------------------------------------------
// Admission
// ---------------------------------------------------------------------------

/// A store admits a record when it is sound and genuine, is not issued more
/// than five minutes ahead, and, where it is live, is within its ttl and its
/// delegation; and only then. How long ago it was issued is no reason.
pub proof fn admission_is_complete(s: SignedModel, now: u64)
    requires
        now < 0xffff_ffff_ffff_ffff || s.record.issued_at + s.record.ttl <= 0xffff_ffff_ffff_ffff,
    ensures
        admitted(s, now) is Ok <==> {
            &&& validated(s.record) is Ok
            &&& signed_verified(s) is Ok
            &&& s.record.issued_at <= now + 300
            &&& s.record.body is Live ==> now < s.record.issued_at + s.record.ttl
            &&& s.record.body is Live ==> now < s.record.delegation.not_after
                || s.record.delegation.not_after == 0xffff_ffff_ffff_ffff
        },
{
}

/// A record that answers a question is admitted to a store, and one that is
/// admitted answers: they differ only in records that are still to come.
pub proof fn what_is_accepted_is_admitted(s: SignedModel, now: u64)
    ensures
        answer_verified(s, s.record.key, now) is Ok && s.record.issued_at <= now + 300 <==> admitted(
            s,
            now,
        ) is Ok,
{
}

/// What putting a record does, by what is held: it is stored when it is
/// admitted, the key is not retired, the key is bound to no other identity, and
/// the record that is held, if there is one, has a lower serial, or the same
/// and an earlier time of issue, or this one retires the key.
pub proof fn what_is_stored(m: StoreModel, s: SignedModel, now: u64)
    ensures
        put_result(m, s, now).0 == Ok::<PutOutcome, ErrorModel>(PutOutcome::Stored) <==> {
            let (key, records) = (s.record.key, m.records);
            &&& admitted(s, now) is Ok
            &&& m.bindings.dom().contains(key) ==> m.bindings[key] == s.record.delegation.identity
            &&& records.dom().contains(key) ==> {
                let old_one = records[key].record;
                &&& old_one.body is Live
                &&& !(s.record.body is Live) || s.record.serial > old_one.serial || (
                s.record.serial == old_one.serial && s.record.issued_at > old_one.issued_at)
            }
        },
        put_result(m, s, now).0 == Ok::<PutOutcome, ErrorModel>(PutOutcome::Stale) <==> {
            let (key, records) = (s.record.key, m.records);
            &&& admitted(s, now) is Ok
            &&& m.bindings.dom().contains(key) ==> m.bindings[key] == s.record.delegation.identity
            &&& records.dom().contains(key)
            &&& records[key].record.body is Live
            &&& s.record.body is Live
            &&& s.record.serial < records[key].record.serial || (s.record.serial
                == records[key].record.serial && s.record.issued_at
                <= records[key].record.issued_at)
        },
        admitted(s, now) is Err ==> put_result(m, s, now).0 is Err,
{
}

/// A record that is admitted, for a key that has none and is bound to nobody
/// else, is stored and then answered for.
pub proof fn a_new_key_is_stored(m: StoreModel, s: SignedModel, now: u64)
    requires
        now < 0xffff_ffff_ffff_ffff || s.record.issued_at + s.record.ttl <= 0xffff_ffff_ffff_ffff,
        validated(s.record) is Ok,
        signed_verified(s) is Ok,
        s.record.issued_at <= now + 300,
        s.record.body is Live ==> now < s.record.issued_at + s.record.ttl,
        s.record.body is Live ==> now < s.record.delegation.not_after
            || s.record.delegation.not_after == 0xffff_ffff_ffff_ffff,
        !m.records.dom().contains(s.record.key),
        m.bindings.dom().contains(s.record.key) ==> m.bindings[s.record.key]
            == s.record.delegation.identity,
    ensures
        put_result(m, s, now).0 == Ok::<PutOutcome, ErrorModel>(PutOutcome::Stored),
        held(put_result(m, s, now).1, s.record.key, now) == Some(s),
{
}

/// Storing a record puts it in the place of its key, binds the key, counts one
/// revision, and does nothing else.
pub proof fn what_storing_changes(m: StoreModel, s: SignedModel, now: u64)
    requires
        put_result(m, s, now).0 == Ok::<PutOutcome, ErrorModel>(PutOutcome::Stored),
    ensures
        ({
            let after = put_result(m, s, now).1;
            &&& forall|k: Seq<u8>| #[trigger]
                after.records.dom().contains(k) <==> k == s.record.key || m.records.dom().contains(
                    k,
                )
            &&& forall|k: Seq<u8>| #[trigger]
                after.records.dom().contains(k) ==> after.records[k] == if k == s.record.key {
                    s
                } else {
                    m.records[k]
                }
            &&& forall|k: Seq<u8>| #[trigger]
                after.bindings.dom().contains(k) <==> k == s.record.key
                    || m.bindings.dom().contains(k)
            &&& forall|k: Seq<u8>| #[trigger]
                after.bindings.dom().contains(k) ==> after.bindings[k] == if k == s.record.key {
                    s.record.delegation.identity
                } else {
                    m.bindings[k]
                }
            &&& m.revision < 0xffff_ffff_ffff_ffff ==> after.revision == m.revision + 1
            &&& after.revision != m.revision
        }),
{
}

/// A sweep takes away the live records whose ttl has run out and no other; the
/// bindings stay, and the revision moves just when a record goes.
pub proof fn what_a_sweep_takes(m: StoreModel, now: u64)
    requires
        now < 0xffff_ffff_ffff_ffff,
    ensures
        forall|k: Seq<u8>| #[trigger]
            swept(m, now).records.dom().contains(k) <==> {
                &&& m.records.dom().contains(k)
                &&& !(m.records[k].record.body is Live) || now < m.records[k].record.issued_at
                    + m.records[k].record.ttl
            },
        forall|k: Seq<u8>| #[trigger]
            swept(m, now).records.dom().contains(k) ==> swept(m, now).records[k] == m.records[k],
        swept(m, now).bindings == m.bindings,
        swept(m, now).revision == m.revision <==> swept(m, now).records == m.records,
        swept(m, now).revision == m.revision || swept(m, now).revision == m.revision + 1
            || m.revision == 0xffff_ffff_ffff_ffff,
{
    let r = swept(m, now).records;
    if swept(m, now).revision == m.revision {
        assert(r =~= m.records);
    }
    if r == m.records {
        assert forall|k: Seq<u8>| #[trigger] m.records.dom().contains(k) implies !is_expired(
            m.records[k].record,
            now,
        ) by {
            assert(r.dom().contains(k));
        }
    }
}

// ---------------------------------------------------------------------------
// What refusals say
// ---------------------------------------------------------------------------

/// A record from the future is refused with how far ahead it is, and one under
/// a delegation that has lapsed with how long ago that was.
pub proof fn what_a_refusal_for_time_says(s: SignedModel, now: u64)
    requires
        validated(s.record) is Ok,
        signed_verified(s) is Ok,
    ensures
        s.record.issued_at > now + 300 ==> admitted(s, now) == Err::<(), ErrorModel>(
            ErrorModel::Record(
                "record is issued "@ + dec((s.record.issued_at - now) as nat)
                    + "s in the future (max skew "@ + dec(300) + "s)"@,
            ),
        ),
        s.record.body is Live && s.record.delegation.not_after < 0xffff_ffff_ffff_ffff
            && s.record.delegation.not_after <= now < s.record.issued_at + s.record.ttl
            && s.record.issued_at <= now + 300 && now < 0xffff_ffff_ffff_ffff ==> admitted(s, now)
            == Err::<(), ErrorModel>(
            ErrorModel::Delegation(
                "the delegation over "@ + base58(s.record.key) + " from "@ + base58(
                    s.record.delegation.identity,
                ) + " expired "@ + dec((now - s.record.delegation.not_after) as nat) + "s ago"@,
            ),
        ),
{
}

} // verus!
