//! Laws of records: what the encoding keeps, who may sign what, and which
//! record wins.

use vstd::prelude::*;
use vstd::string::*;
use vstd::utf8::*;

use crate::codec::{
    be16, be32, be64, bytes_read_back, bytes_were_there, join_assoc, read_bytes, read_u16, read_u32,
    read_u64, read_u8, string_bytes, string_read_back, string_was_there, u16_read_back,
    u16_was_there, u32_read_back, u32_was_there, u64_read_back, u64_was_there, u8_read_back,
    u8_was_there,
};
use crate::delegation::{
    DELEGATION_CONTEXT, delegation_bytes, delegation_expired, delegation_message,
    delegation_read_back, delegation_verified, delegation_was_there, read_delegation,
};
use crate::endpoint::{endpoints_bytes, endpoints_read_back, endpoints_were_there};
use crate::error::ErrorModel;
use crate::key::{PubKey, SigningKey, ed25519_verifies, key_len, public_key};
use crate::record::{
    BODY_LIVE, BODY_REVOKED, BODY_SUPERSEDED, BodyModel, RECORD_VERSION, Record, RecordModel,
    SIG_CONTEXT, SignedModel, SignedRecord, answer_verified, body_bytes, body_fits, expected_signer,
    expires_at, is_expired, is_terminal, read_body, read_body_of_kind, read_record,
    read_record_fields, read_signed, record_bytes, record_decoded, record_fits, record_message,
    record_signed, signed_bytes, signed_decoded, signed_fits, supersedes, validated, wrong_signer,
};

verus! {

broadcast use key_len;

// ---------------------------------------------------------------------------
// The encoding
// ---------------------------------------------------------------------------

/// A body that fits reads back as itself, and what follows it is left alone.
pub proof fn body_read_back(b: BodyModel, tail: Seq<u8>)
    requires
        body_fits(b),
    ensures
        read_body(body_bytes(b) + tail) == (Ok::<BodyModel, ErrorModel>(b), tail),
{
    reveal(read_body);
    reveal(read_body_of_kind);
    match b {
        BodyModel::Live { endpoints } => {
            let n = endpoints.len() as u8;
            let e = endpoints_bytes(endpoints);
            join_assoc(seq![BODY_LIVE] + seq![n], e, tail);
            join_assoc(seq![BODY_LIVE], seq![n], e + tail);
            u8_read_back(BODY_LIVE, seq![n] + (e + tail), "record body kind"@);
            u8_read_back(n, e + tail, "endpoint count"@);
            endpoints_read_back(endpoints, tail);
        },
        BodyModel::Superseded { successor, reason } => {
            let t = string_bytes(reason);
            join_assoc(seq![BODY_SUPERSEDED] + successor, t, tail);
            join_assoc(seq![BODY_SUPERSEDED], successor, t + tail);
            u8_read_back(BODY_SUPERSEDED, successor + (t + tail), "record body kind"@);
            bytes_read_back(successor, t + tail, "successor key"@);
            string_read_back(reason, tail, "supersede reason"@);
        },
        BodyModel::Revoked { reason } => {
            let t = string_bytes(reason);
            join_assoc(seq![BODY_REVOKED], t, tail);
            u8_read_back(BODY_REVOKED, t + tail, "record body kind"@);
            string_read_back(reason, tail, "revocation reason"@);
        },
    }
}

/// A record that fits reads back as itself, and what follows it is left alone.
pub proof fn record_read_back(r: RecordModel, tail: Seq<u8>)
    requires
        record_fits(r),
    ensures
        read_record(record_bytes(r) + tail) == (Ok::<RecordModel, ErrorModel>(r), tail),
{
    reveal(read_record);
    reveal(read_record_fields);
    let (v, k, d) = (seq![RECORD_VERSION], r.key, delegation_bytes(r.delegation));
    let (n, i, l, b) = (be64(r.serial), be64(r.issued_at), be32(r.ttl), body_bytes(r.body));
    let t6 = b + tail;
    let t5 = l + t6;
    let t4 = i + t5;
    let t3 = n + t4;
    let t2 = d + t3;
    let t1 = k + t2;
    join_assoc(v + k + d + n + i + l, b, tail);
    join_assoc(v + k + d + n + i, l, t6);
    join_assoc(v + k + d + n, i, t5);
    join_assoc(v + k + d, n, t4);
    join_assoc(v + k, d, t3);
    join_assoc(v, k, t2);
    u8_read_back(RECORD_VERSION, t1, "record version"@);
    bytes_read_back(k, t2, "record key"@);
    delegation_read_back(r.delegation, t3);
    u64_read_back(r.serial, t4, "record serial"@);
    u64_read_back(r.issued_at, t5, "record issued_at"@);
    u32_read_back(r.ttl, t6, "record ttl"@);
    body_read_back(r.body, tail);
}

/// A record that fits decodes from its encoding to itself.
pub proof fn record_round_trip(r: Record)
    requires
        record_fits(r@),
    ensures
        record_decoded(record_bytes(r@)) == Ok::<RecordModel, ErrorModel>(r@),
{
    let none = Seq::<u8>::empty();
    record_read_back(r@, none);
    assert(record_bytes(r@) + none =~= record_bytes(r@));
}

/// A successful read of a body consumed exactly its encoding.
pub proof fn body_was_there(s: Seq<u8>)
    ensures
        read_body(s) matches (Ok(b), t) ==> s == body_bytes(b) + t && body_fits(b),
{
    reveal(read_body);
    reveal(read_body_of_kind);
    if let (Ok(b), t) = read_body(s) {
        u8_was_there(s, "record body kind"@);
        let s1 = read_u8(s, "record body kind"@).1;
        match b {
            BodyModel::Live { endpoints } => {
                u8_was_there(s1, "endpoint count"@);
                let n = read_u8(s1, "endpoint count"@).0->Ok_0;
                let s2 = read_u8(s1, "endpoint count"@).1;
                endpoints_were_there(s2, n as nat);
                let e = endpoints_bytes(endpoints);
                join_assoc(seq![BODY_LIVE] + seq![n], e, t);
                join_assoc(seq![BODY_LIVE], seq![n], e + t);
            },
            BodyModel::Superseded { successor, reason } => {
                bytes_were_there(s1, 32, "successor key"@);
                let s2 = read_bytes(s1, 32, "successor key"@).1;
                string_was_there(s2, "supersede reason"@);
                join_assoc(seq![BODY_SUPERSEDED] + successor, string_bytes(reason), t);
                join_assoc(seq![BODY_SUPERSEDED], successor, string_bytes(reason) + t);
            },
            BodyModel::Revoked { reason } => {
                string_was_there(s1, "revocation reason"@);
                join_assoc(seq![BODY_REVOKED], string_bytes(reason), t);
            },
        }
    }
}

/// A successful read of a record consumed exactly its encoding.
pub proof fn record_was_there(s: Seq<u8>)
    ensures
        read_record(s) matches (Ok(r), t) ==> s == record_bytes(r) + t && record_fits(r),
{
    reveal(read_record);
    reveal(read_record_fields);
    if let (Ok(r), tail) = read_record(s) {
        u8_was_there(s, "record version"@);
        let s1 = read_u8(s, "record version"@).1;
        bytes_were_there(s1, 32, "record key"@);
        let s2 = read_bytes(s1, 32, "record key"@).1;
        delegation_was_there(s2);
        let s3 = read_delegation(s2).1;
        u64_was_there(s3, "record serial"@);
        let s4 = read_u64(s3, "record serial"@).1;
        u64_was_there(s4, "record issued_at"@);
        let s5 = read_u64(s4, "record issued_at"@).1;
        u32_was_there(s5, "record ttl"@);
        let s6 = read_u32(s5, "record ttl"@).1;
        body_was_there(s6);
        let (v, k, d) = (seq![RECORD_VERSION], r.key, delegation_bytes(r.delegation));
        let (n, i, l, b) = (be64(r.serial), be64(r.issued_at), be32(r.ttl), body_bytes(r.body));
        join_assoc(v + k + d + n + i + l, b, tail);
        join_assoc(v + k + d + n + i, l, s6);
        join_assoc(v + k + d + n, i, s5);
        join_assoc(v + k + d, n, s4);
        join_assoc(v + k, d, s3);
        join_assoc(v, k, s2);
    }
}

/// Record encoding is canonical: the only bytes that decode to a record are
/// the bytes it encodes to.
pub proof fn record_is_canonical(s: Seq<u8>)
    ensures
        record_decoded(s) matches Ok(r) ==> s == record_bytes(r) && record_fits(r),
{
    record_was_there(s);
    if let (Ok(r), t) = read_record(s) {
        if t.len() == 0 {
            assert(record_bytes(r) + t =~= record_bytes(r));
        }
    }
}

/// Different records never share an encoding, so no field can change under a
/// signature without changing the bytes it covers.
pub proof fn record_encoding_is_injective(a: Record, b: Record)
    requires
        record_fits(a@),
        record_fits(b@),
        record_bytes(a@) == record_bytes(b@),
    ensures
        a@ == b@,
{
    record_round_trip(a);
    record_round_trip(b);
}

/// A record cut short is refused, wherever the cut falls.
pub proof fn truncated_record_is_refused(r: Record, cut: int)
    requires
        record_fits(r@),
        0 <= cut < record_bytes(r@).len(),
    ensures
        record_decoded(record_bytes(r@).subrange(0, cut)) is Err,
{
    let whole = record_bytes(r@);
    let head = whole.subrange(0, cut);
    let rest = whole.subrange(cut, whole.len() as int);
    let none = Seq::<u8>::empty();
    record_is_canonical(head);
    if let Ok(w) = record_decoded(head) {
        record_read_back(w, rest);
        assert(head + rest =~= whole);
        record_read_back(r@, none);
        assert(whole + none =~= whole);
        assert(rest == none);
    }
}

/// A signed record that fits reads back as itself, and what follows it is left
/// alone.
pub proof fn signed_read_back(s: SignedModel, tail: Seq<u8>)
    requires
        signed_fits(s),
    ensures
        read_signed(signed_bytes(s) + tail) == (Ok::<SignedModel, ErrorModel>(s), tail),
{
    reveal(read_signed);
    let body = record_bytes(s.record);
    let n = be16(body.len() as u16);
    let none = Seq::<u8>::empty();
    join_assoc(n + body, s.signature, tail);
    join_assoc(n, body, s.signature + tail);
    u16_read_back(body.len() as u16, body + (s.signature + tail), "signed record length"@);
    bytes_read_back(body, s.signature + tail, "signed record body"@);
    bytes_read_back(s.signature, tail, "record signature"@);
    record_read_back(s.record, none);
    assert(body + none =~= body);
}

/// A signed record that fits decodes from its encoding to itself.
pub proof fn signed_round_trip(s: SignedRecord)
    requires
        record_fits(s@.record),
        record_bytes(s@.record).len() <= 0xffff,
    ensures
        signed_decoded(signed_bytes(s@)) == Ok::<SignedModel, ErrorModel>(s@),
{
    let none = Seq::<u8>::empty();
    signed_read_back(s@, none);
    assert(signed_bytes(s@) + none =~= signed_bytes(s@));
}

/// A successful read of a signed record consumed exactly its encoding.
pub proof fn signed_was_there(s: Seq<u8>)
    ensures
        read_signed(s) matches (Ok(r), t) ==> s == signed_bytes(r) + t && signed_fits(r),
{
    reveal(read_signed);
    if let (Ok(r), tail) = read_signed(s) {
        u16_was_there(s, "signed record length"@);
        let n = read_u16(s, "signed record length"@).0->Ok_0;
        let s1 = read_u16(s, "signed record length"@).1;
        bytes_were_there(s1, n as nat, "signed record body"@);
        let body = read_bytes(s1, n as nat, "signed record body"@).0->Ok_0;
        let s2 = read_bytes(s1, n as nat, "signed record body"@).1;
        record_is_canonical(body);
        bytes_were_there(s2, 64, "record signature"@);
        join_assoc(be16(n) + body, r.signature, tail);
        join_assoc(be16(n), body, r.signature + tail);
    }
}

/// The encoding of signed records is canonical: the only bytes that decode to
/// one are the bytes it encodes to.
pub proof fn signed_is_canonical(s: Seq<u8>)
    ensures
        signed_decoded(s) matches Ok(r) ==> s == signed_bytes(r) && signed_fits(r),
{
    signed_was_there(s);
    if let (Ok(r), t) = read_signed(s) {
        if t.len() == 0 {
            assert(signed_bytes(r) + t =~= signed_bytes(r));
        }
    }
}

/// A signed record cut short is refused, wherever the cut falls.
pub proof fn truncated_signed_is_refused(s: SignedRecord, cut: int)
    requires
        record_fits(s@.record),
        record_bytes(s@.record).len() <= 0xffff,
        0 <= cut < signed_bytes(s@).len(),
    ensures
        signed_decoded(signed_bytes(s@).subrange(0, cut)) is Err,
{
    let whole = signed_bytes(s@);
    let head = whole.subrange(0, cut);
    let rest = whole.subrange(cut, whole.len() as int);
    let none = Seq::<u8>::empty();
    signed_is_canonical(head);
    if let Ok(w) = signed_decoded(head) {
        signed_read_back(w, rest);
        assert(head + rest =~= whole);
        signed_read_back(s@, none);
        assert(whole + none =~= whole);
        assert(rest == none);
    }
}

// ---------------------------------------------------------------------------
// Signatures
// ---------------------------------------------------------------------------

/// The two kinds of signature cover different bytes, whatever they speak of:
/// neither can be replayed as the other.
pub proof fn contexts_never_meet(
    record: Seq<u8>,
    identity: Seq<u8>,
    service_key: Seq<u8>,
    not_after: u64,
)
    ensures
        record_message(record) != delegation_message(identity, service_key, not_after),
{
    reveal_strlit("sqns-record-v4");
    reveal_strlit("sqns-delegation-v2");
    is_ascii_chars_encode_utf8(SIG_CONTEXT@);
    is_ascii_chars_encode_utf8(DELEGATION_CONTEXT@);
    assert(SIG_CONTEXT.spec_bytes()[5] == 114);
    assert(DELEGATION_CONTEXT.spec_bytes()[5] == 100);
    assert(record_message(record)[5] == 114);
    assert(delegation_message(identity, service_key, not_after)[5] == 100);
}

/// Only the identity behind a key may retire it: a sound record that retires a
/// key cannot be signed by that key.
pub proof fn a_key_cannot_retire_itself(r: Record, sk: SigningKey)
    requires
        is_terminal(r@),
        validated(r@) is Ok,
        public_key(sk) == r@.key,
    ensures
        record_signed(r@, sk) == Err::<SignedModel, ErrorModel>(wrong_signer(r@, r@.key)),
{
}

/// Nobody but the key itself may advertise endpoints for it.
pub proof fn only_the_key_speaks_for_itself(r: Record, sk: SigningKey)
    requires
        !is_terminal(r@),
    ensures
        record_signed(r@, sk) is Ok <==> public_key(sk) == r@.key,
{
}

/// An answer is accepted when it is for the key that was asked for, is signed
/// by whom it must be, is sound, and neither it nor its delegation has lapsed;
/// and only then.
pub proof fn answers_accepted(s: SignedRecord, asked: PubKey, now: u64)
    ensures
        answer_verified(s@, asked@, now) is Ok <==> {
            &&& s@.record.key == asked@
            &&& delegation_verified(s@.record.delegation, asked@) is Ok
            &&& ed25519_verifies(
                expected_signer(s@.record),
                record_message(record_bytes(s@.record)),
                s@.signature,
            )
            &&& validated(s@.record) is Ok
            &&& is_terminal(s@.record) || !delegation_expired(s@.record.delegation, now)
            &&& !is_expired(s@.record, now)
        },
{
}

// ---------------------------------------------------------------------------
// Precedence and expiry
// ---------------------------------------------------------------------------

/// Precedence is a strict order: nothing beats itself, two records never beat
/// each other, and what beats a winner beats the loser.
pub proof fn precedence_is_strict(a: Record, b: Record, c: Record)
    ensures
        !supersedes(a@, a@),
        supersedes(a@, b@) ==> !supersedes(b@, a@),
        supersedes(a@, b@) && supersedes(b@, c@) ==> supersedes(a@, c@),
{
}

/// Of two live records of which neither beats the other, serial and time of
/// issue are the same.
pub proof fn precedence_is_total_on_live(a: Record, b: Record)
    requires
        !is_terminal(a@),
        !is_terminal(b@),
    ensures
        !supersedes(a@, b@) && !supersedes(b@, a@) ==> a@.serial == b@.serial && a@.issued_at
            == b@.issued_at,
{
}

/// Retirement is final: it beats every live record, and nothing beats it.
pub proof fn retirement_is_final(retired: Record, other: Record)
    requires
        is_terminal(retired@),
    ensures
        !supersedes(other@, retired@),
        !is_terminal(other@) ==> supersedes(retired@, other@),
{
}

/// A retirement never lapses: whether it is accepted as an answer does not
/// depend on the time.
pub proof fn retirement_never_lapses(s: SignedRecord, asked: PubKey, first: u64, later: u64)
    requires
        is_terminal(s@.record),
    ensures
        !is_expired(s@.record, later),
        expires_at(s@.record) == u64::MAX,
        answer_verified(s@, asked@, first) == answer_verified(s@, asked@, later),
{
}

} // verus!
