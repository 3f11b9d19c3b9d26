//! Records: the signed mapping from a public key to an endpoint set.
//!
//! A record is signed under the authority of the key it describes, so a client
//! can verify an answer end-to-end. A server, or a peer replicating from one,
//! can withhold a record, but it cannot forge one, alter its endpoints, or
//! replay an older version past its expiry.
//!
//! A record's `key` is a **service key**, which signs its own live records.
//! Every record carries a [`Delegation`] binding that key to an **identity
//! key**, which does the one job the service key must not be able to do
//! itself: retire it, naming a replacement ([`RecordBody::Superseded`]) or not
//! ([`RecordBody::Revoked`]).
//!
//! Canonical encoding (big-endian, no padding):
//!
//! ```text
//! Record     := version:u8 key:[32] Delegation
//!               serial:u64 issued_at:u64 ttl:u32 body_kind:u8 body
//! body       := n:u8 endpoint*n                     when body_kind = 1 (Live)
//!             | successor:[32] reason_len:u16 utf8  when body_kind = 2 (Superseded)
//!             | reason_len:u16 utf8                 when body_kind = 3 (Revoked)
//! Delegation := identity:[32] not_after:u64 signature:[64]
//! Endpoint   := priority:u16 weight:u16 port:u16 host_type:u8 host
//! host       := [4]         when host_type = 1 (IPv4)
//!             | [16]        when host_type = 2 (IPv6)
//!             | len:u8 utf8 when host_type = 3 (DNS name)
//! Signed     := record_len:u16 record signature:[64]
//! ```
//!
//! A record signature covers `SIG_CONTEXT || record_bytes`; a delegation
//! signature covers `DELEGATION_CONTEXT || identity || service_key ||
//! not_after`. The two contexts differ so neither signature can be replayed as
//! the other.

use vstd::prelude::*;
use vstd::string::*;
use vstd::utf8::*;

use crate::codec::{
    Parse, Reader, be16, be32, be64, finished, put_bytes, put_string, put_u16, put_u32, put_u64,
    put_u8, read_bytes, read_string, read_u16, read_u32, read_u64, read_u8, string_bytes,
};
use crate::delegation::{
    DelegationModel, delegation_bytes, delegation_expired, delegation_fits, delegation_verified,
    read_delegation,
};
use crate::endpoint::{
    EndpointModel, clone_endpoints, decode_endpoints, encode_endpoints, endpoint_models,
    endpoints_bytes, endpoints_fit, read_endpoints,
};
use crate::error::{Error, ErrorModel, Result, outcome};
use crate::key::{
    PubKey, SigningKey, base58, ed25519_signature, ed25519_verifies, is_curve_point, key_len,
    not_a_point, public_key, public_of,
};
use crate::order::{is_stable_order, stable_order};
use crate::text::{dec, hex_prefixed, push_dec, push_hex_prefixed};

pub use crate::delegation::{
    Delegation, DelegationFile, DEFAULT_DELEGATION_LIFETIME, DELEGATION_CONTEXT,
    MAX_DELEGATION_LIFETIME, NEVER_EXPIRES,
};
pub use crate::endpoint::{Endpoint, Host};

verus! {

broadcast use key_len;

/// Version byte of the record encoding.
pub const RECORD_VERSION: u8 = 4;

/// Domain separation prefix for record signatures.
pub const SIG_CONTEXT: &'static str = "sqns-record-v4";

/// Longest accepted revocation reason, in bytes.
pub const MAX_REASON_LEN: usize = 256;

/// A record may carry at most this many endpoints (the count is a `u8`).
pub const MAX_ENDPOINTS: usize = 255;

/// Shortest accepted TTL, in seconds.
pub const MIN_TTL: u32 = 30;

/// Longest accepted TTL, in seconds (7 days).
pub const MAX_TTL: u32 = 604_800;

/// How far into the future a record's `issued_at` may sit before a server
/// rejects it as clock skew, in seconds.
pub const MAX_CLOCK_SKEW: u64 = 300;

pub const BODY_LIVE: u8 = 1;

pub const BODY_SUPERSEDED: u8 = 2;

pub const BODY_REVOKED: u8 = 3;

// ---------------------------------------------------------------------------
// The clock
// ---------------------------------------------------------------------------

/// A reading of the system's clock.
#[verifier::external_type_specification]
#[verifier::external_body]
pub struct ExSystemTime(std::time::SystemTime);

/// Why one reading is not as late as another.
#[verifier::external_type_specification]
#[verifier::external_body]
pub struct ExSystemTimeError(std::time::SystemTimeError);

/// `SystemTime::now` reads the clock. Nothing is promised of what it says.
pub assume_specification[ std::time::SystemTime::now ]() -> (t: std::time::SystemTime)
;

/// `SystemTime::duration_since` of the Unix epoch: the time from the epoch to
/// `t`, or an error when `t` lies before it. Nothing is promised of how long
/// that is.
#[verifier::external_body]
fn since_epoch(t: std::time::SystemTime) -> (r: std::result::Result<
    std::time::Duration,
    std::time::SystemTimeError,
>) {
    t.duration_since(std::time::UNIX_EPOCH)
}

/// `Duration::as_secs`: the whole seconds of a length of time. Nothing is
/// promised of how many.
pub assume_specification[ std::time::Duration::as_secs ](d: &std::time::Duration) -> (seconds: u64)
;

/// What a reading of the clock counts as: its whole seconds since the Unix
/// epoch, or zero for one that lies before it.
pub fn unix_seconds(reading: Option<u64>) -> (now: u64)
    ensures
        now == (match reading {
            Some(seconds) => seconds,
            None => 0,
        }),
{
    match reading {
        Some(seconds) => seconds,
        None => 0,
    }
}

/// Seconds since the Unix epoch; zero for a clock that stands before it. What
/// the clock says is not known beforehand.
pub fn now_unix() -> (now: u64) {
    let reading = match since_epoch(std::time::SystemTime::now()) {
        Ok(d) => Some(d.as_secs()),
        Err(_) => None,
    };
    unix_seconds(reading)
}

// ---------------------------------------------------------------------------
// Records
// ---------------------------------------------------------------------------

/// What a record says about its service key.
#[derive(Debug, PartialEq, Eq)]
pub enum RecordBody {
    /// The key is in service at these endpoints. Empty withdraws it.
    Live { endpoints: Vec<Endpoint> },
    /// The key is retired and its identity issued `successor` in its place.
    /// Terminal: nothing is accepted for this key again, and lookups forward.
    Superseded { successor: PubKey, reason: String },
    /// The key is dead with no replacement. Terminal.
    Revoked { reason: String },
}

/// A [`RecordBody`] taken by the views of its parts.
#[verifier::ext_equal]
pub enum BodyModel {
    Live { endpoints: Seq<EndpointModel> },
    Superseded { successor: Seq<u8>, reason: Seq<char> },
    Revoked { reason: Seq<char> },
}

impl View for RecordBody {
    type V = BodyModel;

    open spec fn view(&self) -> BodyModel {
        match *self {
            RecordBody::Live { endpoints } => BodyModel::Live {
                endpoints: endpoint_models(endpoints@),
            },
            RecordBody::Superseded { successor, reason } => BodyModel::Superseded {
                successor: successor@,
                reason: reason@,
            },
            RecordBody::Revoked { reason } => BodyModel::Revoked { reason: reason@ },
        }
    }
}

impl Clone for RecordBody {
    fn clone(&self) -> (r: Self)
        ensures
            r@ == self@,
    {
        match self {
            RecordBody::Live { endpoints } => RecordBody::Live {
                endpoints: clone_endpoints(endpoints.as_slice()),
            },
            RecordBody::Superseded { successor, reason } => RecordBody::Superseded {
                successor: *successor,
                reason: reason.clone(),
            },
            RecordBody::Revoked { reason } => RecordBody::Revoked { reason: reason.clone() },
        }
    }
}

/// The unsigned body of a record.
#[derive(Debug, PartialEq, Eq)]
pub struct Record {
    /// The service key this record speaks for: the lookup index.
    pub key: PubKey,
    /// Binding to the identity that issued this key. Every record has one:
    /// without it the key would be its own authority, and so would its thief.
    pub delegation: Delegation,
    /// Monotonic version counter; the highest serial wins.
    pub serial: u64,
    /// Publication time, seconds since the Unix epoch.
    pub issued_at: u64,
    /// Lifetime in seconds from `issued_at`. Ignored for terminal records,
    /// which never expire.
    pub ttl: u32,
    pub body: RecordBody,
}

/// A [`Record`] taken by the views of its parts.
#[verifier::ext_equal]
pub struct RecordModel {
    pub key: Seq<u8>,
    pub delegation: DelegationModel,
    pub serial: u64,
    pub issued_at: u64,
    pub ttl: u32,
    pub body: BodyModel,
}

impl View for Record {
    type V = RecordModel;

    open spec fn view(&self) -> RecordModel {
        RecordModel {
            key: self.key@,
            delegation: self.delegation@,
            serial: self.serial,
            issued_at: self.issued_at,
            ttl: self.ttl,
            body: self.body@,
        }
    }
}

impl Clone for Record {
    fn clone(&self) -> (r: Self)
        ensures
            r@ == self@,
    {
        Record {
            key: self.key,
            delegation: self.delegation.clone(),
            serial: self.serial,
            issued_at: self.issued_at,
            ttl: self.ttl,
            body: self.body.clone(),
        }
    }
}

/// A record that retires its key.
pub open spec fn is_terminal(r: RecordModel) -> bool {
    !(r.body is Live)
}

/// The endpoints of a live record; none for a retired key.
pub open spec fn endpoints_of(r: RecordModel) -> Seq<EndpointModel> {
    match r.body {
        BodyModel::Live { endpoints } => endpoints,
        _ => seq![],
    }
}

/// The key a record forwards to, if it was superseded.
pub open spec fn successor_of(r: RecordModel) -> Option<Seq<u8>> {
    match r.body {
        BodyModel::Superseded { successor, .. } => Some(successor),
        _ => None,
    }
}

/// The key whose signature a record must carry: the service key for a live
/// record, its identity to retire it.
pub open spec fn expected_signer(r: RecordModel) -> Seq<u8> {
    if is_terminal(r) {
        r.delegation.identity
    } else {
        r.key
    }
}

/// When a record stops being usable. Terminal records never do.
pub open spec fn expires_at(r: RecordModel) -> u64 {
    if is_terminal(r) || r.issued_at + r.ttl > u64::MAX {
        u64::MAX
    } else {
        (r.issued_at + r.ttl) as u64
    }
}

/// A live record past its lifetime.
pub open spec fn is_expired(r: RecordModel, now: u64) -> bool {
    !is_terminal(r) && now >= expires_at(r)
}

/// `a` should replace `b` in a store: retiring a key beats any live record,
/// nothing beats a retirement, and live records go by serial, then by time.
pub open spec fn supersedes(a: RecordModel, b: RecordModel) -> bool {
    !is_terminal(b) && (is_terminal(a) || a.serial > b.serial || (a.serial == b.serial
        && a.issued_at > b.issued_at))
}

/// The check of a reason's length.
pub open spec fn reason_checked(reason: Seq<char>) -> std::result::Result<(), ErrorModel> {
    if encode_utf8(reason).len() > MAX_REASON_LEN {
        Err(
            ErrorModel::Record(
                "reason must be at most "@ + dec(MAX_REASON_LEN as nat) + " bytes, got "@ + dec(
                    encode_utf8(reason).len(),
                ),
            ),
        )
    } else {
        Ok(())
    }
}

/// The structural checks of a record's body.
pub open spec fn body_validated(r: RecordModel) -> std::result::Result<(), ErrorModel> {
    match r.body {
        BodyModel::Live { endpoints } => if endpoints.len() > MAX_ENDPOINTS {
            Err(
                ErrorModel::Record(
                    "at most "@ + dec(MAX_ENDPOINTS as nat) + " endpoints, got "@ + dec(
                        endpoints.len(),
                    ),
                ),
            )
        } else if r.ttl < MIN_TTL || r.ttl > MAX_TTL {
            Err(
                ErrorModel::Record(
                    "ttl must be "@ + dec(MIN_TTL as nat) + "..="@ + dec(MAX_TTL as nat)
                        + " seconds, got "@ + dec(r.ttl as nat),
                ),
            )
        } else {
            Ok(())
        },
        BodyModel::Superseded { successor, reason } => if !is_curve_point(successor) {
            Err(not_a_point())
        } else if successor == r.key {
            Err(ErrorModel::Record("a key cannot be superseded by itself"@))
        } else {
            reason_checked(reason)
        },
        BodyModel::Revoked { reason } => reason_checked(reason),
    }
}

/// The structural checks of a record.
pub open spec fn validated(r: RecordModel) -> std::result::Result<(), ErrorModel> {
    if !is_curve_point(r.key) || !is_curve_point(r.delegation.identity) {
        Err(not_a_point())
    } else if r.delegation.identity == r.key {
        Err(ErrorModel::Delegation("a service key cannot be its own identity"@))
    } else {
        body_validated(r)
    }
}

// ---------------------------------------------------------------------------
// Encoding
// ---------------------------------------------------------------------------

/// The bytes of a record's body, its kind first. The count of endpoints wraps
/// at 256.
pub open spec fn body_bytes(b: BodyModel) -> Seq<u8> {
    match b {
        BodyModel::Live { endpoints } => seq![BODY_LIVE] + seq![(endpoints.len() % 0x100) as u8]
            + endpoints_bytes(endpoints),
        BodyModel::Superseded { successor, reason } => seq![BODY_SUPERSEDED] + successor
            + string_bytes(reason),
        BodyModel::Revoked { reason } => seq![BODY_REVOKED] + string_bytes(reason),
    }
}

/// Canonical bytes: the signature input, and the on-wire form.
pub open spec fn record_bytes(r: RecordModel) -> Seq<u8> {
    seq![RECORD_VERSION] + r.key + delegation_bytes(r.delegation) + be64(r.serial) + be64(
        r.issued_at,
    ) + be32(r.ttl) + body_bytes(r.body)
}

/// The bytes a record signature covers.
pub open spec fn record_message(record: Seq<u8>) -> Seq<u8> {
    SIG_CONTEXT.spec_bytes() + record
}

/// A body that its encoding carries exactly.
pub open spec fn body_fits(b: BodyModel) -> bool {
    match b {
        BodyModel::Live { endpoints } => endpoints.len() <= 0xff && endpoints_fit(endpoints),
        BodyModel::Superseded { successor, reason } => successor.len() == 32 && encode_utf8(
            reason,
        ).len() <= 0xffff,
        BodyModel::Revoked { reason } => encode_utf8(reason).len() <= 0xffff,
    }
}

/// A record that its encoding carries exactly: at most 255 endpoints, names of
/// 1 to 255 bytes, a reason of at most 65535 bytes.
pub open spec fn record_fits(r: RecordModel) -> bool {
    r.key.len() == 32 && delegation_fits(r.delegation) && body_fits(r.body)
}

// ---------------------------------------------------------------------------
// Decoding
// ---------------------------------------------------------------------------

/// Read a body of a given kind.
#[verifier::opaque]
pub open spec fn read_body_of_kind(kind: u8, s: Seq<u8>) -> Parse<BodyModel> {
    if kind == BODY_LIVE {
        match read_u8(s, "endpoint count"@) {
            (Err(e), t) => (Err(e), t),
            (Ok(n), t) => match read_endpoints(t, n as nat) {
                (Err(e), t) => (Err(e), t),
                (Ok(endpoints), t) => (Ok(BodyModel::Live { endpoints }), t),
            },
        }
    } else if kind == BODY_SUPERSEDED {
        match read_bytes(s, 32, "successor key"@) {
            (Err(e), t) => (Err(e), t),
            (Ok(successor), t) => match read_string(t, "supersede reason"@) {
                (Err(e), t) => (Err(e), t),
                (Ok(reason), t) => (Ok(BodyModel::Superseded { successor, reason }), t),
            },
        }
    } else if kind == BODY_REVOKED {
        match read_string(s, "revocation reason"@) {
            (Err(e), t) => (Err(e), t),
            (Ok(reason), t) => (Ok(BodyModel::Revoked { reason }), t),
        }
    } else {
        (Err(ErrorModel::Record("unknown record body kind "@ + hex_prefixed(kind as nat))), s)
    }
}

/// Read a body.
#[verifier::opaque]
pub open spec fn read_body(s: Seq<u8>) -> Parse<BodyModel> {
    match read_u8(s, "record body kind"@) {
        (Err(e), t) => (Err(e), t),
        (Ok(kind), t) => read_body_of_kind(kind, t),
    }
}

/// Why a record of another version is not read.
pub open spec fn wrong_version(version: u8) -> ErrorModel {
    ErrorModel::Record(
        "unsupported record version "@ + dec(version as nat) + " (this build speaks "@ + dec(
            RECORD_VERSION as nat,
        ) + ")"@,
    )
}

/// Read what follows a record's version.
#[verifier::opaque]
pub open spec fn read_record_fields(s: Seq<u8>) -> Parse<RecordModel> {
    match read_bytes(s, 32, "record key"@) {
        (Err(e), t) => (Err(e), t),
        (Ok(key), t) => match read_delegation(t) {
            (Err(e), t) => (Err(e), t),
            (Ok(delegation), t) => match read_u64(t, "record serial"@) {
                (Err(e), t) => (Err(e), t),
                (Ok(serial), t) => match read_u64(t, "record issued_at"@) {
                    (Err(e), t) => (Err(e), t),
                    (Ok(issued_at), t) => match read_u32(t, "record ttl"@) {
                        (Err(e), t) => (Err(e), t),
                        (Ok(ttl), t) => match read_body(t) {
                            (Err(e), t) => (Err(e), t),
                            (Ok(body), t) => (
                                Ok(
                                    RecordModel { key, delegation, serial, issued_at, ttl, body },
                                ),
                                t,
                            ),
                        },
                    },
                },
            },
        },
    }
}

/// Read a record.
#[verifier::opaque]
pub open spec fn read_record(s: Seq<u8>) -> Parse<RecordModel> {
    match read_u8(s, "record version"@) {
        (Err(e), t) => (Err(e), t),
        (Ok(version), t) => if version != RECORD_VERSION {
            (Err(wrong_version(version)), t)
        } else {
            read_record_fields(t)
        },
    }
}

/// A record out of its bytes, with nothing left over.
pub open spec fn record_decoded(s: Seq<u8>) -> std::result::Result<RecordModel, ErrorModel> {
    match read_record(s) {
        (Err(e), _) => Err(e),
        (Ok(r), t) => match finished(t, "record"@) {
            Err(e) => Err(e),
            Ok(_) => Ok(r),
        },
    }
}

fn check_reason(reason: &str) -> (r: Result<()>)
    ensures
        outcome(r) == reason_checked(reason@),
{
    let n: usize = reason.as_bytes().len();
    if n > MAX_REASON_LEN {
        let mut m = String::from_str("reason must be at most ");
        push_dec(&mut m, MAX_REASON_LEN as u64);
        m.append(" bytes, got ");
        push_dec(&mut m, n as u64);
        return Err(Error::Record(m));
    }
    Ok(())
}

/// The bytes a record signature actually covers.
fn signed_message(record_bytes: &[u8]) -> (msg: Vec<u8>)
    ensures
        msg@ == record_message(record_bytes@),
{
    let mut msg: Vec<u8> = Vec::new();
    put_bytes(&mut msg, SIG_CONTEXT.as_bytes());
    put_bytes(&mut msg, record_bytes);
    assert(msg@ =~= record_message(record_bytes@));
    msg
}

impl RecordBody {
    fn encode_into(&self, buf: &mut Vec<u8>)
        ensures
            final(buf)@ == old(buf)@ + body_bytes(self@),
    {
        let ghost before = buf@;
        match self {
            RecordBody::Live { endpoints } => {
                put_u8(buf, BODY_LIVE);
                put_u8(buf, (endpoints.len() % 0x100) as u8);
                encode_endpoints(endpoints.as_slice(), buf);
                assert(buf@ =~= before + body_bytes(self@));
            },
            RecordBody::Superseded { successor, reason } => {
                put_u8(buf, BODY_SUPERSEDED);
                put_bytes(buf, successor.as_bytes());
                put_string(buf, reason.as_str());
                assert(buf@ =~= before + body_bytes(self@));
            },
            RecordBody::Revoked { reason } => {
                put_u8(buf, BODY_REVOKED);
                put_string(buf, reason.as_str());
                assert(buf@ =~= before + body_bytes(self@));
            },
        }
    }

    fn decode_from(r: &mut Reader<'_>) -> (out: Result<Self>)
        ensures
            (outcome(out), final(r)@) == read_body(old(r)@),
    {
        proof {
            reveal(read_body);
            reveal(read_body_of_kind);
        }
        let kind: u8 = r.u8("record body kind")?;
        if kind == BODY_LIVE {
            let count: u8 = r.u8("endpoint count")?;
            let endpoints = decode_endpoints(count as usize, r)?;
            Ok(RecordBody::Live { endpoints })
        } else if kind == BODY_SUPERSEDED {
            let successor = PubKey::new(r.array::<32>("successor key")?);
            let reason = r.string("supersede reason")?;
            Ok(RecordBody::Superseded { successor, reason })
        } else if kind == BODY_REVOKED {
            let reason = r.string("revocation reason")?;
            Ok(RecordBody::Revoked { reason })
        } else {
            let mut m = String::from_str("unknown record body kind ");
            push_hex_prefixed(&mut m, kind as u64);
            Err(Error::Record(m))
        }
    }
}

/// A live record's contents.
pub open spec fn live_model(
    key: Seq<u8>,
    delegation: DelegationModel,
    serial: u64,
    ttl: u32,
    endpoints: Seq<EndpointModel>,
    now: u64,
) -> RecordModel {
    RecordModel {
        key,
        delegation,
        serial,
        issued_at: now,
        ttl,
        body: BodyModel::Live { endpoints },
    }
}

/// A superseding record's contents.
pub open spec fn superseded_model(
    key: Seq<u8>,
    delegation: DelegationModel,
    serial: u64,
    successor: Seq<u8>,
    reason: Seq<char>,
    now: u64,
) -> RecordModel {
    RecordModel {
        key,
        delegation,
        serial,
        issued_at: now,
        ttl: MAX_TTL,
        body: BodyModel::Superseded { successor, reason },
    }
}

/// A revoking record's contents.
pub open spec fn revoked_model(
    key: Seq<u8>,
    delegation: DelegationModel,
    serial: u64,
    reason: Seq<char>,
    now: u64,
) -> RecordModel {
    RecordModel {
        key,
        delegation,
        serial,
        issued_at: now,
        ttl: MAX_TTL,
        body: BodyModel::Revoked { reason },
    }
}

/// The order in which endpoints are preferred, as a number: priority
/// ascending, then weight descending.
pub open spec fn preference(e: EndpointModel) -> u64 {
    (e.priority * 0x1_0000 + (0xffff - e.weight)) as u64
}

/// The preferences of a list of endpoints.
pub open spec fn preferences(v: Seq<EndpointModel>) -> Seq<u64> {
    Seq::new(v.len(), |i: int| preference(v[i]))
}

/// `out` lists all of `v` in the order of preference, equals in their order.
pub open spec fn in_preference_order(v: Seq<EndpointModel>, out: Seq<EndpointModel>) -> bool {
    exists|p: Seq<usize>|
        #[trigger] is_stable_order(p, preferences(v)) && out == Seq::new(
            p.len(),
            |i: int| v[p[i] as int],
        )
}

/// A signature refused because of who made it.
pub open spec fn wrong_signer(r: RecordModel, signer: Seq<u8>) -> ErrorModel {
    ErrorModel::Signature(
        if is_terminal(r) {
            "retiring "@ + base58(r.key) + " takes its identity "@ + base58(r.delegation.identity)
                + ", but it was signed by "@ + base58(signer)
        } else {
            "a live record for "@ + base58(r.key) + " must be signed by it, not by "@ + base58(
                signer,
            )
        },
    )
}

/// A record signed with a key.
pub open spec fn record_signed(r: RecordModel, sk: SigningKey) -> std::result::Result<
    SignedModel,
    ErrorModel,
> {
    if public_key(sk) != expected_signer(r) {
        Err(wrong_signer(r, public_key(sk)))
    } else {
        Ok(
            SignedModel {
                record: r,
                signature: ed25519_signature(sk@, record_message(record_bytes(r))),
            },
        )
    }
}

impl Record {
    /// A record advertising endpoints for a service key, issued at `now`.
    pub fn live_at(
        key: PubKey,
        delegation: Delegation,
        serial: u64,
        ttl: u32,
        endpoints: Vec<Endpoint>,
        now: u64,
    ) -> (r: Self)
        ensures
            r@ == live_model(key@, delegation@, serial, ttl, endpoint_models(endpoints@), now),
    {
        Record {
            key,
            delegation,
            serial,
            issued_at: now,
            ttl,
            body: RecordBody::Live { endpoints },
        }
    }

    /// A record advertising endpoints for a service key, issued now.
    pub fn live(
        key: PubKey,
        delegation: Delegation,
        serial: u64,
        ttl: u32,
        endpoints: Vec<Endpoint>,
    ) -> (r: Self)
        ensures
            exists|now: u64|
                r@ == live_model(key@, delegation@, serial, ttl, endpoint_models(endpoints@), now),
    {
        let now: u64 = now_unix();
        Self::live_at(key, delegation, serial, ttl, endpoints, now)
    }

    /// Retire `key` at `now`, forwarding lookups to `successor`.
    pub fn superseded_at(
        key: PubKey,
        delegation: Delegation,
        serial: u64,
        successor: PubKey,
        reason: &str,
        now: u64,
    ) -> (r: Self)
        ensures
            r@ == superseded_model(key@, delegation@, serial, successor@, reason@, now),
    {
        Record {
            key,
            delegation,
            serial,
            issued_at: now,
            ttl: MAX_TTL,
            body: RecordBody::Superseded { successor, reason: String::from_str(reason) },
        }
    }

    /// Retire `key`, forwarding lookups to `successor`. Signed by its identity.
    pub fn superseded(
        key: PubKey,
        delegation: Delegation,
        serial: u64,
        successor: PubKey,
        reason: &str,
    ) -> (r: Self)
        ensures
            exists|now: u64|
                r@ == superseded_model(key@, delegation@, serial, successor@, reason@, now),
    {
        let now: u64 = now_unix();
        Self::superseded_at(key, delegation, serial, successor, reason, now)
    }

    /// Retire `key` at `now` with no replacement.
    pub fn revoked_at(
        key: PubKey,
        delegation: Delegation,
        serial: u64,
        reason: &str,
        now: u64,
    ) -> (r: Self)
        ensures
            r@ == revoked_model(key@, delegation@, serial, reason@, now),
    {
        Record {
            key,
            delegation,
            serial,
            issued_at: now,
            ttl: MAX_TTL,
            body: RecordBody::Revoked { reason: String::from_str(reason) },
        }
    }

    /// Retire `key` with no replacement. Signed by its identity.
    pub fn revoked(key: PubKey, delegation: Delegation, serial: u64, reason: &str) -> (r: Self)
        ensures
            exists|now: u64| r@ == revoked_model(key@, delegation@, serial, reason@, now),
    {
        let now: u64 = now_unix();
        Self::revoked_at(key, delegation, serial, reason, now)
    }

    /// The identity that issued this service key.
    pub fn identity(&self) -> (k: PubKey)
        ensures
            k@ == self@.delegation.identity,
    {
        self.delegation.identity
    }

    /// The key whose signature this record must carry.
    ///
    /// A live record is signed by the service key itself, so publishing stays
    /// on the host. Retiring it takes the identity, which is exactly what a
    /// thief who stole the service key does not have.
    pub fn expected_signer(&self) -> (k: PubKey)
        ensures
            k@ == expected_signer(self@),
    {
        match &self.body {
            RecordBody::Live { .. } => self.key,
            _ => self.delegation.identity,
        }
    }

    pub fn endpoints(&self) -> (v: &[Endpoint])
        ensures
            endpoint_models(v@) == endpoints_of(self@),
    {
        match &self.body {
            RecordBody::Live { endpoints } => endpoints.as_slice(),
            _ => {
                let none: &[Endpoint] = &[];
                assert(endpoint_models(none@) =~= endpoints_of(self@));
                none
            },
        }
    }

    /// The key this record forwards to, if it was superseded.
    pub fn successor(&self) -> (k: Option<PubKey>)
        ensures
            match k {
                Some(k) => successor_of(self@) == Some(k@),
                None => successor_of(self@) is None,
            },
    {
        match &self.body {
            RecordBody::Superseded { successor, .. } => Some(*successor),
            _ => None,
        }
    }

    pub fn is_superseded(&self) -> (b: bool)
        ensures
            b == (self@.body is Superseded),
    {
        match &self.body {
            RecordBody::Superseded { .. } => true,
            _ => false,
        }
    }

    pub fn is_revoked(&self) -> (b: bool)
        ensures
            b == (self@.body is Revoked),
    {
        match &self.body {
            RecordBody::Revoked { .. } => true,
            _ => false,
        }
    }

    /// True for a record that retires its key: nothing is ever accepted for
    /// that key afterwards, and the record itself never expires.
    pub fn is_terminal(&self) -> (b: bool)
        ensures
            b == is_terminal(self@),
    {
        self.is_superseded() || self.is_revoked()
    }

    /// A live record with no endpoints is a withdrawal: deliberately
    /// unreachable for now, and free to come back.
    pub fn is_withdrawal(&self) -> (b: bool)
        ensures
            b == (!is_terminal(self@) && endpoints_of(self@).len() == 0),
    {
        match &self.body {
            RecordBody::Live { endpoints } => endpoints.len() == 0,
            _ => false,
        }
    }

    /// When this record stops being usable. Terminal records never do.
    pub fn expires_at(&self) -> (t: u64)
        ensures
            t == expires_at(self@),
    {
        if self.is_terminal() {
            return u64::MAX;
        }
        self.issued_at.saturating_add(self.ttl as u64)
    }

    pub fn is_expired(&self, now: u64) -> (b: bool)
        ensures
            b == is_expired(self@, now),
    {
        !self.is_terminal() && now >= self.expires_at()
    }

    /// Seconds until expiry, saturating at zero.
    pub fn remaining(&self, now: u64) -> (t: u64)
        ensures
            t == (if expires_at(self@) > now {
                expires_at(self@) - now
            } else {
                0
            }),
    {
        self.expires_at().saturating_sub(now)
    }

    /// Endpoints in preference order: priority ascending, heavier first.
    pub fn by_priority(&self) -> (out: Vec<&Endpoint>)
        ensures
            in_preference_order(
                endpoints_of(self@),
                Seq::new(out@.len(), |i: int| (*out@[i])@),
            ),
    {
        let v = self.endpoints();
        let ghost model = endpoint_models(v@);
        let ghost prefs = preferences(model);
        let mut keys: Vec<u64> = Vec::new();
        let mut i: usize = 0;
        while i < v.len()
            invariant
                i <= v@.len(),
                model == endpoint_models(v@),
                keys@.len() == i,
                forall|j: int| 0 <= j < i ==> #[trigger] keys@[j] == preference(model[j]),
            decreases v@.len() - i,
        {
            keys.push(v[i].priority as u64 * 0x1_0000 + (0xffff - v[i].weight) as u64);
            i += 1;
        }
        assert(keys@ =~= prefs);
        let p = stable_order(&keys);
        let mut out: Vec<&Endpoint> = Vec::new();
        let mut k: usize = 0;
        while k < p.len()
            invariant
                k <= p@.len(),
                v@.len() == prefs.len(),
                is_stable_order(p@, prefs),
                out@.len() == k,
                forall|j: int| 0 <= j < k ==> *(#[trigger] out@[j]) == v@[p@[j] as int],
            decreases p@.len() - k,
        {
            out.push(&v[p[k]]);
            k += 1;
        }
        proof {
            let seen = Seq::new(out@.len(), |i: int| (*out@[i])@);
            assert(seen =~= Seq::new(p@.len(), |i: int| model[p@[i] as int]));
        }
        out
    }

    /// True when `self` should replace `other` in a store.
    ///
    /// Retiring a key is final: a terminal record beats any live one, and
    /// nothing at all beats a terminal record, which is what stops a thief
    /// still holding the key from publishing over its own retirement.
    pub fn supersedes(&self, other: &Record) -> (b: bool)
        ensures
            b == supersedes(self@, other@),
    {
        if other.is_terminal() {
            return false;
        }
        if self.is_terminal() {
            return true;
        }
        self.serial > other.serial || (self.serial == other.serial && self.issued_at
            > other.issued_at)
    }

    /// Structural checks a server applies before storing.
    pub fn validate(&self) -> (r: Result<()>)
        ensures
            outcome(r) == validated(self@),
    {
        self.key.verifying_key()?;
        self.delegation.identity.verifying_key()?;
        if self.delegation.identity == self.key {
            return Err(
                Error::Delegation(String::from_str("a service key cannot be its own identity")),
            );
        }
        match &self.body {
            RecordBody::Live { endpoints } => {
                if endpoints.len() > MAX_ENDPOINTS {
                    let mut m = String::from_str("at most ");
                    push_dec(&mut m, MAX_ENDPOINTS as u64);
                    m.append(" endpoints, got ");
                    push_dec(&mut m, endpoints.len() as u64);
                    return Err(Error::Record(m));
                }
                if self.ttl < MIN_TTL || self.ttl > MAX_TTL {
                    let mut m = String::from_str("ttl must be ");
                    push_dec(&mut m, MIN_TTL as u64);
                    m.append("..=");
                    push_dec(&mut m, MAX_TTL as u64);
                    m.append(" seconds, got ");
                    push_dec(&mut m, self.ttl as u64);
                    return Err(Error::Record(m));
                }
                Ok(())
            },
            RecordBody::Superseded { successor, reason } => {
                successor.verifying_key()?;
                if *successor == self.key {
                    return Err(
                        Error::Record(String::from_str("a key cannot be superseded by itself")),
                    );
                }
                check_reason(reason.as_str())
            },
            RecordBody::Revoked { reason } => check_reason(reason.as_str()),
        }
    }

    /// Canonical bytes: the signature input, and the on-wire form.
    pub fn encode(&self) -> (buf: Vec<u8>)
        ensures
            buf@ == record_bytes(self@),
    {
        let mut buf: Vec<u8> = Vec::new();
        put_u8(&mut buf, RECORD_VERSION);
        assert(buf@ =~= seq![RECORD_VERSION]);
        put_bytes(&mut buf, self.key.as_bytes());
        self.delegation.encode_into(&mut buf);
        put_u64(&mut buf, self.serial);
        put_u64(&mut buf, self.issued_at);
        put_u32(&mut buf, self.ttl);
        self.body.encode_into(&mut buf);
        buf
    }

    pub fn decode(bytes: &[u8]) -> (out: Result<Self>)
        ensures
            outcome(out) == record_decoded(bytes@),
    {
        let mut r = Reader::new(bytes);
        let rec = Self::decode_from(&mut r)?;
        r.finish("record")?;
        Ok(rec)
    }

    fn decode_from(r: &mut Reader<'_>) -> (out: Result<Self>)
        ensures
            (outcome(out), final(r)@) == read_record(old(r)@),
    {
        proof {
            reveal(read_record);
            reveal(read_record_fields);
        }
        let version: u8 = r.u8("record version")?;
        if version != RECORD_VERSION {
            let mut m = String::from_str("unsupported record version ");
            push_dec(&mut m, version as u64);
            m.append(" (this build speaks ");
            push_dec(&mut m, RECORD_VERSION as u64);
            m.append(")");
            return Err(Error::Record(m));
        }
        let key = PubKey::new(r.array::<32>("record key")?);
        let delegation = Delegation::decode_from(r)?;
        let serial: u64 = r.u64("record serial")?;
        let issued_at: u64 = r.u64("record issued_at")?;
        let ttl: u32 = r.u32("record ttl")?;
        let body = RecordBody::decode_from(r)?;
        Ok(Record { key, delegation, serial, issued_at, ttl, body })
    }

    /// Sign with the key this record's authority calls for: the service key for
    /// a live record, the issuing identity to retire one.
    pub fn sign(self, sk: &SigningKey) -> (out: Result<SignedRecord>)
        ensures
            outcome(out) == record_signed(self@, *sk),
            out matches Ok(s) ==> ed25519_verifies(
                expected_signer(self@),
                record_message(record_bytes(self@)),
                s.signature@,
            ) && is_curve_point(expected_signer(self@)),
            out matches Ok(s) ==> (delegation_verified(self@.delegation, self@.key) is Ok
                ==> signed_verified(s@) is Ok),
    {
        let signer = public_of(sk);
        let expected = self.expected_signer();
        if signer != expected {
            let terminal = self.is_terminal();
            let mut m = String::from_str(
                if terminal {
                    "retiring "
                } else {
                    "a live record for "
                },
            );
            m.append(self.key.to_string().as_str());
            if terminal {
                m.append(" takes its identity ");
                m.append(self.identity().to_string().as_str());
                m.append(", but it was signed by ");
            } else {
                m.append(" must be signed by it, not by ");
            }
            m.append(signer.to_string().as_str());
            return Err(Error::Signature(m));
        }
        let body = self.encode();
        let signature = sk.sign(&signed_message(&body));
        Ok(SignedRecord { record: self, signature })
    }
}

// ---------------------------------------------------------------------------
// Signed records
// ---------------------------------------------------------------------------

/// A record plus the signature made under its key's authority.
#[derive(Debug, PartialEq, Eq)]
pub struct SignedRecord {
    pub record: Record,
    pub signature: [u8; 64],
}

/// A [`SignedRecord`] taken by the views of its parts.
#[verifier::ext_equal]
pub struct SignedModel {
    pub record: RecordModel,
    pub signature: Seq<u8>,
}

impl View for SignedRecord {
    type V = SignedModel;

    open spec fn view(&self) -> SignedModel {
        SignedModel { record: self.record@, signature: self.signature@ }
    }
}

impl Clone for SignedRecord {
    fn clone(&self) -> (r: Self)
        ensures
            r@ == self@,
    {
        SignedRecord { record: self.record.clone(), signature: self.signature }
    }
}

/// The views of a sequence of signed records.
pub open spec fn signed_models(v: Seq<SignedRecord>) -> Seq<SignedModel> {
    Seq::new(v.len(), |i: int| v[i]@)
}

/// A signed record that does not verify.
pub open spec fn not_signed(s: SignedModel) -> ErrorModel {
    ErrorModel::Signature(
        "the record for "@ + base58(s.record.key) + " is not signed by "@ + base58(
            expected_signer(s.record),
        ),
    )
}

/// The check of a record's signature and of the delegation behind it.
pub open spec fn signed_verified(s: SignedModel) -> std::result::Result<(), ErrorModel> {
    match delegation_verified(s.record.delegation, s.record.key) {
        Err(e) => Err(e),
        Ok(_) => if !is_curve_point(expected_signer(s.record)) {
            Err(not_a_point())
        } else if !ed25519_verifies(
            expected_signer(s.record),
            record_message(record_bytes(s.record)),
            s.signature,
        ) {
            Err(not_signed(s))
        } else {
            Ok(())
        },
    }
}

/// A live record whose delegation lapsed.
pub open spec fn delegation_lapsed(r: RecordModel, now: u64) -> ErrorModel {
    ErrorModel::Delegation(
        "the delegation over "@ + base58(r.key) + " from "@ + base58(r.delegation.identity)
            + " expired "@ + dec((now - r.delegation.not_after) as nat) + "s ago"@,
    )
}

/// The check of an answer for `asked` at `now`.
pub open spec fn answer_verified(
    s: SignedModel,
    asked: Seq<u8>,
    now: u64,
) -> std::result::Result<(), ErrorModel> {
    if s.record.key != asked {
        Err(ErrorModel::KeyMismatch { asked: base58(asked), got: base58(s.record.key) })
    } else if signed_verified(s) is Err {
        signed_verified(s)
    } else if validated(s.record) is Err {
        validated(s.record)
    } else if delegation_expired(s.record.delegation, now) && !is_terminal(s.record) {
        Err(delegation_lapsed(s.record, now))
    } else if is_expired(s.record, now) {
        Err(ErrorModel::Expired((now - expires_at(s.record)) as u64))
    } else {
        Ok(())
    }
}

/// The error a revoked key is reported as.
pub open spec fn revocation_of(r: RecordModel) -> Option<ErrorModel> {
    match r.body {
        BodyModel::Revoked { reason } => Some(
            ErrorModel::Revoked {
                key: base58(r.key),
                successor: None,
                reason: if reason.len() == 0 {
                    "no reason given"@
                } else {
                    reason
                },
            },
        ),
        _ => None,
    }
}

/// The bytes of a signed record: the record behind its length, then the
/// signature. The length wraps at 65536.
pub open spec fn signed_bytes(s: SignedModel) -> Seq<u8> {
    be16((record_bytes(s.record).len() % 0x1_0000) as u16) + record_bytes(s.record) + s.signature
}

/// A signed record that its encoding carries exactly.
pub open spec fn signed_fits(s: SignedModel) -> bool {
    record_fits(s.record) && record_bytes(s.record).len() <= 0xffff && s.signature.len() == 64
}

/// Read a signed record.
#[verifier::opaque]
pub open spec fn read_signed(s: Seq<u8>) -> Parse<SignedModel> {
    match read_u16(s, "signed record length"@) {
        (Err(e), t) => (Err(e), t),
        (Ok(n), t) => match read_bytes(t, n as nat, "signed record body"@) {
            (Err(e), t) => (Err(e), t),
            (Ok(body), t) => match record_decoded(body) {
                Err(e) => (Err(e), t),
                Ok(record) => match read_bytes(t, 64, "record signature"@) {
                    (Err(e), t) => (Err(e), t),
                    (Ok(signature), t) => (Ok(SignedModel { record, signature }), t),
                },
            },
        },
    }
}

/// A signed record out of its bytes, with nothing left over.
pub open spec fn signed_decoded(s: Seq<u8>) -> std::result::Result<SignedModel, ErrorModel> {
    match read_signed(s) {
        (Err(e), _) => Err(e),
        (Ok(r), t) => match finished(t, "signed record"@) {
            Err(e) => Err(e),
            Ok(_) => Ok(r),
        },
    }
}

impl SignedRecord {
    /// The service key this record speaks for: what was looked up, and what a
    /// client pins when dialing its endpoints.
    pub fn key(&self) -> (k: PubKey)
        ensures
            k@ == self@.record.key,
    {
        self.record.key
    }

    pub fn identity(&self) -> (k: PubKey)
        ensures
            k@ == self@.record.delegation.identity,
    {
        self.record.identity()
    }

    /// Check the record's signature and the delegation behind it.
    pub fn verify(&self) -> (r: Result<()>)
        ensures
            outcome(r) == signed_verified(self@),
    {
        self.record.delegation.verify(&self.record.key)?;
        let signer = self.record.expected_signer();
        let vk = signer.verifying_key()?;
        let msg = signed_message(&self.record.encode());
        if vk.verify(&msg, &self.signature) {
            Ok(())
        } else {
            let mut m = String::from_str("the record for ");
            m.append(self.record.key.to_string().as_str());
            m.append(" is not signed by ");
            m.append(signer.to_string().as_str());
            Err(Error::Signature(m))
        }
    }

    /// Verify the signature, that the record answers the key that was asked
    /// for, that it is structurally sound, and that neither it nor its
    /// delegation has expired.
    ///
    /// This is what a client runs on every answer, and on every hop of a
    /// supersede chain.
    pub fn verify_answer(&self, asked: &PubKey, now: u64) -> (r: Result<()>)
        ensures
            outcome(r) == answer_verified(self@, asked@, now),
    {
        if self.record.key != *asked {
            return Err(
                Error::KeyMismatch {
                    asked: asked.to_string(),
                    got: self.record.key.to_string(),
                },
            );
        }
        self.verify()?;
        self.record.validate()?;
        let d = &self.record.delegation;
        if d.is_expired(now) && !self.record.is_terminal() {
            let mut m = String::from_str("the delegation over ");
            m.append(self.record.key.to_string().as_str());
            m.append(" from ");
            m.append(d.identity.to_string().as_str());
            m.append(" expired ");
            push_dec(&mut m, now - d.not_after);
            m.append("s ago");
            return Err(Error::Delegation(m));
        }
        if self.record.is_expired(now) {
            return Err(Error::Expired(now - self.record.expires_at()));
        }
        Ok(())
    }

    /// The error a revoked key should be reported as, if it is one.
    ///
    /// A supersede is not an error to a caller that follows it, so this returns
    /// `None` for that case; see [`Record::successor`].
    pub fn revocation_error(&self) -> (e: Option<Error>)
        ensures
            match e {
                Some(e) => revocation_of(self@.record) == Some(e@),
                None => revocation_of(self@.record) is None,
            },
    {
        match &self.record.body {
            RecordBody::Revoked { reason } => Some(
                Error::Revoked {
                    key: self.record.key.to_string(),
                    successor: None,
                    reason: if reason.as_str().is_empty() {
                        String::from_str("no reason given")
                    } else {
                        reason.clone()
                    },
                },
            ),
            _ => None,
        }
    }

    pub fn encode(&self) -> (buf: Vec<u8>)
        ensures
            buf@ == signed_bytes(self@),
    {
        let body = self.record.encode();
        let mut buf: Vec<u8> = Vec::new();
        put_u16(&mut buf, (body.len() % 0x1_0000) as u16);
        assert(buf@ =~= be16((body@.len() % 0x1_0000) as u16));
        put_bytes(&mut buf, &body);
        put_bytes(&mut buf, &self.signature);
        buf
    }

    pub fn decode(bytes: &[u8]) -> (out: Result<Self>)
        ensures
            outcome(out) == signed_decoded(bytes@),
    {
        let mut r = Reader::new(bytes);
        let rec = Self::decode_from(&mut r)?;
        r.finish("signed record")?;
        Ok(rec)
    }

    pub fn decode_from(r: &mut Reader<'_>) -> (out: Result<Self>)
        ensures
            (outcome(out), final(r)@) == read_signed(old(r)@),
    {
        proof {
            reveal(read_signed);
        }
        let len: u16 = r.u16("signed record length")?;
        let body = r.bytes(len as usize, "signed record body")?;
        let record = Record::decode(body)?;
        let signature = r.array::<64>("record signature")?;
        Ok(SignedRecord { record, signature })
    }

    pub fn encode_into(&self, buf: &mut Vec<u8>)
        ensures
            final(buf)@ == old(buf)@ + signed_bytes(self@),
    {
        put_bytes(buf, &self.encode());
    }
}

/// The error a record's retirement is reported as, if it retires its key.
pub open spec fn retirement_of(r: RecordModel) -> Option<ErrorModel> {
    match r.body {
        BodyModel::Superseded { successor, .. } => Some(
            ErrorModel::Superseded { key: base58(r.key), successor: base58(successor) },
        ),
        _ => revocation_of(r),
    }
}

/// The error a record's retirement should be reported as, if it retires its
/// key.
pub fn retirement_error(held: &SignedRecord) -> (e: Option<Error>)
    ensures
        match e {
            Some(e) => retirement_of(held@.record) == Some(e@),
            None => retirement_of(held@.record) is None,
        },
{
    if let Some(successor) = held.record.successor() {
        return Some(
            Error::Superseded {
                key: held.key().to_string(),
                successor: successor.to_string(),
            },
        );
    }
    held.revocation_error()
}

} // verus!
