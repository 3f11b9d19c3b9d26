//! The sqns wire protocol.
//!
//! One request/response exchange per sQUIC bidirectional stream. Every message
//! is a frame: `[type:u8][length:u32][payload]`. The transport already provides
//! confidentiality, server identity pinning and, where the server whitelists
//! keys, caller authentication, so the protocol itself carries no handshake.

use vstd::prelude::*;
use vstd::string::*;
use vstd::utf8::*;

use crate::codec::{
    Parse, Reader, be16, be32, be32_round_trip, be64, bytes_read_back, finished, from_be16,
    from_be32, join_assoc, put_bytes, put_string, put_u16, put_u32, put_u64, put_u8, read_bytes,
    read_string, read_u16, read_u32, read_u64, read_u8, string_bytes, string_read_back,
    u16_read_back, u32_read_back, u64_read_back, u8_read_back,
};
use crate::error::{Error, ErrorModel, Result, join2, join3, outcome};
use crate::key::{PubKey, key_len};
use crate::shown::response_shown;
use crate::record::{
    SignedModel, SignedRecord, read_signed, signed_bytes, signed_fits, signed_models,
};
use crate::record_laws::signed_read_back;
use crate::snapshot::{decode_records, read_records, records_bytes, records_fit, records_read_back};
use crate::text::{dec, hex_prefixed, push_dec, push_hex_prefixed};

verus! {

broadcast use key_len;

/// ALPN protocol identifier.
pub const ALPN: &'static str = "sqns/1";

/// Default sqns port (UDP, since sQUIC rides QUIC).
pub const DEFAULT_PORT: u16 = 5300;

/// Hard cap on a single frame's payload.
pub const MAX_MESSAGE_LEN: u32 = 0x10_0000;

/// Most records a single `Sync` response will carry.
pub const MAX_SYNC_BATCH: u16 = 512;

/// How many servers a lookup may be forwarded through, unless the caller says
/// otherwise.
pub const DEFAULT_RECURSE: u8 = 4;

/// The most hops a caller may ask for.
pub const MAX_RECURSE: u8 = 8;

// Request frame types.
pub const REQ_LOOKUP: u8 = 0x01;

pub const REQ_PUBLISH: u8 = 0x02;

pub const REQ_STATUS: u8 = 0x03;

pub const REQ_SYNC: u8 = 0x04;

pub const REQ_LOOKUP_IDENTITY: u8 = 0x05;

// Response frame types.
pub const RESP_ANSWER: u8 = 0x81;

pub const RESP_PUBLISHED: u8 = 0x82;

pub const RESP_STATUS: u8 = 0x83;

pub const RESP_RECORDS: u8 = 0x84;

pub const RESP_ERROR: u8 = 0xff;

// ---------------------------------------------------------------------------
// Error codes
// ---------------------------------------------------------------------------

/// Why a request failed, as sent on the wire.
#[derive(Debug, Clone, Copy, PartialEq, Eq, Structural)]
pub enum ErrorCode {
    Malformed,
    Unsupported,
    BadSignature,
    /// The submitted record is not newer than the one already held.
    Stale,
    RateLimited,
    Internal,
    /// Operation restricted to configured replication peers.
    NotAuthorized,
    /// The key is revoked; nothing will ever be accepted for it again.
    Revoked,
    /// The record's delegation is missing, expired, or does not match the
    /// identity its key is bound to.
    BadDelegation,
    /// The key is retired in favour of another; nothing will ever be accepted
    /// for it again.
    Superseded,
    /// No server further up could be reached.
    UpstreamFailed,
}

/// The number of an error code.
pub open spec fn code_number(c: ErrorCode) -> u16 {
    match c {
        ErrorCode::Malformed => 1,
        ErrorCode::Unsupported => 2,
        ErrorCode::BadSignature => 3,
        ErrorCode::Stale => 4,
        ErrorCode::RateLimited => 5,
        ErrorCode::Internal => 6,
        ErrorCode::NotAuthorized => 7,
        ErrorCode::Revoked => 8,
        ErrorCode::BadDelegation => 9,
        ErrorCode::Superseded => 10,
        ErrorCode::UpstreamFailed => 11,
    }
}

/// The error code with a number; `Internal` for a number that is no code's.
pub open spec fn code_of(v: u16) -> ErrorCode {
    if v == 1 {
        ErrorCode::Malformed
    } else if v == 2 {
        ErrorCode::Unsupported
    } else if v == 3 {
        ErrorCode::BadSignature
    } else if v == 4 {
        ErrorCode::Stale
    } else if v == 5 {
        ErrorCode::RateLimited
    } else if v == 7 {
        ErrorCode::NotAuthorized
    } else if v == 8 {
        ErrorCode::Revoked
    } else if v == 9 {
        ErrorCode::BadDelegation
    } else if v == 10 {
        ErrorCode::Superseded
    } else if v == 11 {
        ErrorCode::UpstreamFailed
    } else {
        ErrorCode::Internal
    }
}

/// The name of an error code.
pub open spec fn code_name(c: ErrorCode) -> Seq<char> {
    match c {
        ErrorCode::Malformed => "Malformed"@,
        ErrorCode::Unsupported => "Unsupported"@,
        ErrorCode::BadSignature => "BadSignature"@,
        ErrorCode::Stale => "Stale"@,
        ErrorCode::RateLimited => "RateLimited"@,
        ErrorCode::Internal => "Internal"@,
        ErrorCode::NotAuthorized => "NotAuthorized"@,
        ErrorCode::Revoked => "Revoked"@,
        ErrorCode::BadDelegation => "BadDelegation"@,
        ErrorCode::Superseded => "Superseded"@,
        ErrorCode::UpstreamFailed => "UpstreamFailed"@,
    }
}

impl ErrorCode {
    pub fn from_u16(v: u16) -> (c: Self)
        ensures
            c == code_of(v),
    {
        match v {
            1 => ErrorCode::Malformed,
            2 => ErrorCode::Unsupported,
            3 => ErrorCode::BadSignature,
            4 => ErrorCode::Stale,
            5 => ErrorCode::RateLimited,
            7 => ErrorCode::NotAuthorized,
            8 => ErrorCode::Revoked,
            9 => ErrorCode::BadDelegation,
            10 => ErrorCode::Superseded,
            11 => ErrorCode::UpstreamFailed,
            _ => ErrorCode::Internal,
        }
    }

    /// The number this code is sent as.
    pub fn to_u16(self) -> (v: u16)
        ensures
            v == code_number(self),
    {
        match self {
            ErrorCode::Malformed => 1,
            ErrorCode::Unsupported => 2,
            ErrorCode::BadSignature => 3,
            ErrorCode::Stale => 4,
            ErrorCode::RateLimited => 5,
            ErrorCode::Internal => 6,
            ErrorCode::NotAuthorized => 7,
            ErrorCode::Revoked => 8,
            ErrorCode::BadDelegation => 9,
            ErrorCode::Superseded => 10,
            ErrorCode::UpstreamFailed => 11,
        }
    }

    /// The name of this code.
    pub fn name(self) -> (s: &'static str)
        ensures
            s@ == code_name(self),
    {
        match self {
            ErrorCode::Malformed => "Malformed",
            ErrorCode::Unsupported => "Unsupported",
            ErrorCode::BadSignature => "BadSignature",
            ErrorCode::Stale => "Stale",
            ErrorCode::RateLimited => "RateLimited",
            ErrorCode::Internal => "Internal",
            ErrorCode::NotAuthorized => "NotAuthorized",
            ErrorCode::Revoked => "Revoked",
            ErrorCode::BadDelegation => "BadDelegation",
            ErrorCode::Superseded => "Superseded",
            ErrorCode::UpstreamFailed => "UpstreamFailed",
        }
    }
}

/// An error code survives being sent.
pub proof fn error_codes_round_trip(c: ErrorCode)
    ensures
        code_of(code_number(c)) == c,
{
}

// ---------------------------------------------------------------------------
// Requests
// ---------------------------------------------------------------------------

/// A request from a client or a replication peer.
#[derive(Debug, PartialEq, Eq)]
pub enum Request {
    /// Resolve one public key to its endpoint set. `recurse` is how many more
    /// servers the question may be passed on to.
    Lookup { key: PubKey, recurse: u8 },
    /// The records of every key an identity has issued.
    LookupIdentity { identity: PubKey },
    /// Publish or refresh a record. Only the record's own key can sign it.
    Publish { record: Box<SignedRecord> },
    /// Server counters, for health checks.
    Status,
    /// Anti-entropy pull: every record issued at or after `since`.
    Sync { since: u64, limit: u16 },
}

/// A [`Request`] taken by the views of its parts.
#[verifier::ext_equal]
pub enum RequestModel {
    Lookup { key: Seq<u8>, recurse: u8 },
    LookupIdentity { identity: Seq<u8> },
    Publish { record: SignedModel },
    Status,
    Sync { since: u64, limit: u16 },
}

impl View for Request {
    type V = RequestModel;

    open spec fn view(&self) -> RequestModel {
        match *self {
            Request::Lookup { key, recurse } => RequestModel::Lookup { key: key@, recurse },
            Request::LookupIdentity { identity } => RequestModel::LookupIdentity {
                identity: identity@,
            },
            Request::Publish { record } => RequestModel::Publish { record: (*record)@ },
            Request::Status => RequestModel::Status,
            Request::Sync { since, limit } => RequestModel::Sync { since, limit },
        }
    }
}

impl Clone for Request {
    fn clone(&self) -> (r: Self)
        ensures
            r@ == self@,
    {
        match self {
            Request::Lookup { key, recurse } => Request::Lookup { key: *key, recurse: *recurse },
            Request::LookupIdentity { identity } => Request::LookupIdentity { identity: *identity },
            Request::Publish { record } => Request::Publish { record: Box::new((**record).clone()) },
            Request::Status => Request::Status,
            Request::Sync { since, limit } => Request::Sync { since: *since, limit: *limit },
        }
    }
}

/// The frame type of a request.
pub open spec fn request_type(r: RequestModel) -> u8 {
    match r {
        RequestModel::Lookup { .. } => REQ_LOOKUP,
        RequestModel::LookupIdentity { .. } => REQ_LOOKUP_IDENTITY,
        RequestModel::Publish { .. } => REQ_PUBLISH,
        RequestModel::Status => REQ_STATUS,
        RequestModel::Sync { .. } => REQ_SYNC,
    }
}

/// The payload of a request.
pub open spec fn request_bytes(r: RequestModel) -> Seq<u8> {
    match r {
        RequestModel::Lookup { key, recurse } => key + seq![recurse],
        RequestModel::LookupIdentity { identity } => identity,
        RequestModel::Publish { record } => signed_bytes(record),
        RequestModel::Status => seq![],
        RequestModel::Sync { since, limit } => be64(since) + be16(limit),
    }
}

/// A hop budget as far as a server honours it.
pub open spec fn capped(recurse: u8) -> u8 {
    if recurse > MAX_RECURSE {
        MAX_RECURSE
    } else {
        recurse
    }
}

/// Read the payload of a request of a given type.
pub open spec fn read_request(frame_type: u8, s: Seq<u8>) -> Parse<RequestModel> {
    if frame_type == REQ_LOOKUP {
        match read_bytes(s, 32, "lookup key"@) {
            (Err(e), t) => (Err(e), t),
            (Ok(key), t) => match read_u8(t, "lookup recurse"@) {
                (Err(e), t) => (Err(e), t),
                (Ok(recurse), t) => (
                    Ok(RequestModel::Lookup { key, recurse: capped(recurse) }),
                    t,
                ),
            },
        }
    } else if frame_type == REQ_LOOKUP_IDENTITY {
        match read_bytes(s, 32, "lookup identity"@) {
            (Err(e), t) => (Err(e), t),
            (Ok(identity), t) => (Ok(RequestModel::LookupIdentity { identity }), t),
        }
    } else if frame_type == REQ_PUBLISH {
        match read_signed(s) {
            (Err(e), t) => (Err(e), t),
            (Ok(record), t) => (Ok(RequestModel::Publish { record }), t),
        }
    } else if frame_type == REQ_STATUS {
        (Ok(RequestModel::Status), s)
    } else if frame_type == REQ_SYNC {
        match read_u64(s, "sync since"@) {
            (Err(e), t) => (Err(e), t),
            (Ok(since), t) => match read_u16(t, "sync limit"@) {
                (Err(e), t) => (Err(e), t),
                (Ok(limit), t) => (Ok(RequestModel::Sync { since, limit }), t),
            },
        }
    } else {
        (Err(ErrorModel::Protocol("unknown request type "@ + hex_prefixed(frame_type as nat))), s)
    }
}

/// A request out of a frame, with nothing left over.
pub open spec fn request_decoded(frame_type: u8, s: Seq<u8>) -> std::result::Result<
    RequestModel,
    ErrorModel,
> {
    match read_request(frame_type, s) {
        (Err(e), _) => Err(e),
        (Ok(r), t) => match finished(t, "request"@) {
            Err(e) => Err(e),
            Ok(_) => Ok(r),
        },
    }
}

impl Request {
    pub fn frame_type(&self) -> (t: u8)
        ensures
            t == request_type(self@),
    {
        match self {
            Request::Lookup { .. } => REQ_LOOKUP,
            Request::LookupIdentity { .. } => REQ_LOOKUP_IDENTITY,
            Request::Publish { .. } => REQ_PUBLISH,
            Request::Status => REQ_STATUS,
            Request::Sync { .. } => REQ_SYNC,
        }
    }

    pub fn encode_payload(&self) -> (buf: Vec<u8>)
        ensures
            buf@ == request_bytes(self@),
    {
        let mut buf: Vec<u8> = Vec::new();
        match self {
            Request::Lookup { key, recurse } => {
                put_bytes(&mut buf, key.as_bytes());
                put_u8(&mut buf, *recurse);
            },
            Request::LookupIdentity { identity } => put_bytes(&mut buf, identity.as_bytes()),
            Request::Publish { record } => record.encode_into(&mut buf),
            Request::Status => {},
            Request::Sync { since, limit } => {
                put_u64(&mut buf, *since);
                put_u16(&mut buf, *limit);
            },
        }
        assert(buf@ =~= request_bytes(self@));
        buf
    }

    fn decode_from(frame_type: u8, r: &mut Reader<'_>) -> (out: Result<Self>)
        ensures
            (outcome(out), final(r)@) == read_request(frame_type, old(r)@),
    {
        if frame_type == REQ_LOOKUP {
            let key = PubKey::new(r.array::<32>("lookup key")?);
            let recurse: u8 = r.u8("lookup recurse")?;
            // A caller does not get to spend an unbounded amount of someone
            // else's network on one question.
            let recurse: u8 = if recurse > MAX_RECURSE {
                MAX_RECURSE
            } else {
                recurse
            };
            Ok(Request::Lookup { key, recurse })
        } else if frame_type == REQ_LOOKUP_IDENTITY {
            let identity = PubKey::new(r.array::<32>("lookup identity")?);
            Ok(Request::LookupIdentity { identity })
        } else if frame_type == REQ_PUBLISH {
            let record = SignedRecord::decode_from(r)?;
            Ok(Request::Publish { record: Box::new(record) })
        } else if frame_type == REQ_STATUS {
            Ok(Request::Status)
        } else if frame_type == REQ_SYNC {
            let since: u64 = r.u64("sync since")?;
            let limit: u16 = r.u16("sync limit")?;
            Ok(Request::Sync { since, limit })
        } else {
            let mut m = String::from_str("unknown request type ");
            push_hex_prefixed(&mut m, frame_type as u64);
            Err(Error::Protocol(m))
        }
    }

    pub fn decode(frame_type: u8, payload: &[u8]) -> (out: Result<Self>)
        ensures
            outcome(out) == request_decoded(frame_type, payload@),
    {
        let mut r = Reader::new(payload);
        let req = Self::decode_from(frame_type, &mut r)?;
        r.finish("request")?;
        Ok(req)
    }
}

/// A request decodes from its encoding to itself, except that a hop budget
/// over the cap comes back as the cap.
pub proof fn request_round_trip(r: Request)
    requires
        r@ is Publish ==> signed_fits(r@->record),
    ensures
        request_decoded(request_type(r@), request_bytes(r@)) == Ok::<RequestModel, ErrorModel>(
            match r@ {
                RequestModel::Lookup { key, recurse } => RequestModel::Lookup {
                    key,
                    recurse: capped(recurse),
                },
                other => other,
            },
        ),
{
    let none = Seq::<u8>::empty();
    match r@ {
        RequestModel::Lookup { key, recurse } => {
            bytes_read_back(key, seq![recurse], "lookup key"@);
            u8_read_back(recurse, none, "lookup recurse"@);
            assert(seq![recurse] + none =~= seq![recurse]);
        },
        RequestModel::LookupIdentity { identity } => {
            bytes_read_back(identity, none, "lookup identity"@);
            assert(identity + none =~= identity);
        },
        RequestModel::Publish { record } => {
            signed_read_back(record, none);
            assert(signed_bytes(record) + none =~= signed_bytes(record));
        },
        RequestModel::Status => {},
        RequestModel::Sync { since, limit } => {
            u64_read_back(since, be16(limit), "sync since"@);
            u16_read_back(limit, none, "sync limit"@);
            assert(be16(limit) + none =~= be16(limit));
        },
    }
}

// ---------------------------------------------------------------------------
// Responses
// ---------------------------------------------------------------------------

/// Counters returned by [`Request::Status`].
#[derive(Debug, PartialEq, Eq)]
pub struct StatusInfo {
    pub records: u64,
    /// Answers relayed from upstream, held beside the store.
    pub cached: u64,
    pub peers: u32,
    pub upstreams: u32,
    pub uptime_secs: u64,
    pub version: String,
}

/// A [`StatusInfo`] with its version as a character sequence.
#[verifier::ext_equal]
pub struct StatusModel {
    pub records: u64,
    pub cached: u64,
    pub peers: u32,
    pub upstreams: u32,
    pub uptime_secs: u64,
    pub version: Seq<char>,
}

impl View for StatusInfo {
    type V = StatusModel;

    open spec fn view(&self) -> StatusModel {
        StatusModel {
            records: self.records,
            cached: self.cached,
            peers: self.peers,
            upstreams: self.upstreams,
            uptime_secs: self.uptime_secs,
            version: self.version@,
        }
    }
}

impl Clone for StatusInfo {
    fn clone(&self) -> (r: Self)
        ensures
            r@ == self@,
    {
        StatusInfo {
            records: self.records,
            cached: self.cached,
            peers: self.peers,
            upstreams: self.upstreams,
            uptime_secs: self.uptime_secs,
            version: self.version.clone(),
        }
    }
}

/// A server's reply.
#[derive(Debug, PartialEq, Eq)]
pub enum Response {
    /// The record for the requested key, or `None` if the server holds none.
    /// When the record forwards, `successor` is the replacement's own record,
    /// if the server has it.
    Answer { record: Option<Box<SignedRecord>>, successor: Option<Box<SignedRecord>> },
    /// The record was accepted; `expires_at` is when the server will drop it.
    Published { serial: u64, expires_at: u64 },
    Status(StatusInfo),
    /// Records from an anti-entropy pull. `complete` is false when the batch
    /// hit `limit` and the caller should pull again from the last `issued_at`.
    Records { records: Vec<SignedRecord>, complete: bool },
    Error { code: ErrorCode, message: String },
}

/// A [`Response`] taken by the views of its parts.
#[verifier::ext_equal]
pub enum ResponseModel {
    Answer { record: Option<SignedModel>, successor: Option<SignedModel> },
    Published { serial: u64, expires_at: u64 },
    Status(StatusModel),
    Records { records: Seq<SignedModel>, complete: bool },
    Error { code: ErrorCode, message: Seq<char> },
}

/// An optional boxed record taken by its view.
pub open spec fn opt_boxed(o: Option<Box<SignedRecord>>) -> Option<SignedModel> {
    match o {
        Some(b) => Some((*b)@),
        None => None,
    }
}

impl View for Response {
    type V = ResponseModel;

    open spec fn view(&self) -> ResponseModel {
        match *self {
            Response::Answer { record, successor } => ResponseModel::Answer {
                record: opt_boxed(record),
                successor: opt_boxed(successor),
            },
            Response::Published { serial, expires_at } => ResponseModel::Published {
                serial,
                expires_at,
            },
            Response::Status(info) => ResponseModel::Status(info@),
            Response::Records { records, complete } => ResponseModel::Records {
                records: signed_models(records@),
                complete,
            },
            Response::Error { code, message } => ResponseModel::Error { code, message: message@ },
        }
    }
}

/// The frame type of a response.
pub open spec fn response_type(r: ResponseModel) -> u8 {
    match r {
        ResponseModel::Answer { .. } => RESP_ANSWER,
        ResponseModel::Published { .. } => RESP_PUBLISHED,
        ResponseModel::Status(_) => RESP_STATUS,
        ResponseModel::Records { .. } => RESP_RECORDS,
        ResponseModel::Error { .. } => RESP_ERROR,
    }
}

/// A record behind a byte that says whether there is one.
pub open spec fn optional_bytes(o: Option<SignedModel>) -> Seq<u8> {
    match o {
        Some(s) => seq![1u8] + signed_bytes(s),
        None => seq![0u8],
    }
}

/// The bytes of the counters.
pub open spec fn status_bytes(s: StatusModel) -> Seq<u8> {
    be64(s.records) + be64(s.cached) + be32(s.peers) + be32(s.upstreams) + be64(s.uptime_secs)
        + string_bytes(s.version)
}

/// The payload of a response. The count of records wraps at 2^32.
pub open spec fn response_bytes(r: ResponseModel) -> Seq<u8> {
    match r {
        ResponseModel::Answer { record, successor } => optional_bytes(record) + optional_bytes(
            successor,
        ),
        ResponseModel::Published { serial, expires_at } => be64(serial) + be64(expires_at),
        ResponseModel::Status(s) => status_bytes(s),
        ResponseModel::Records { records, complete } => be32(
            (records.len() % 0x1_0000_0000) as u32,
        ) + seq![
            if complete {
                1u8
            } else {
                0u8
            },
        ] + records_bytes(records),
        ResponseModel::Error { code, message } => be16(code_number(code)) + string_bytes(message),
    }
}

/// Read an optional record.
#[verifier::opaque]
pub open spec fn read_optional(s: Seq<u8>, what: Seq<char>) -> Parse<Option<SignedModel>> {
    match read_u8(s, what + " presence"@) {
        (Err(e), t) => (Err(e), t),
        (Ok(present), t) => if present == 0 {
            (Ok(None), t)
        } else if present == 1 {
            match read_signed(t) {
                (Err(e), t) => (Err(e), t),
                (Ok(r), t) => (Ok(Some(r)), t),
            }
        } else {
            (
                Err(
                    ErrorModel::Protocol(
                        "invalid "@ + what + " presence byte "@ + hex_prefixed(present as nat),
                    ),
                ),
                t,
            )
        },
    }
}

/// Read an answer.
#[verifier::opaque]
pub open spec fn read_answer(s: Seq<u8>) -> Parse<ResponseModel> {
    match read_optional(s, "answer"@) {
        (Err(e), t) => (Err(e), t),
        (Ok(record), t) => match read_optional(t, "successor"@) {
            (Err(e), t) => (Err(e), t),
            (Ok(successor), t) => (Ok(ResponseModel::Answer { record, successor }), t),
        },
    }
}

/// Read the counters.
#[verifier::opaque]
pub open spec fn read_status(s: Seq<u8>) -> Parse<StatusModel> {
    match read_u64(s, "status records"@) {
        (Err(e), t) => (Err(e), t),
        (Ok(records), t) => match read_u64(t, "status cached"@) {
            (Err(e), t) => (Err(e), t),
            (Ok(cached), t) => match read_u32(t, "status peers"@) {
                (Err(e), t) => (Err(e), t),
                (Ok(peers), t) => match read_u32(t, "status upstreams"@) {
                    (Err(e), t) => (Err(e), t),
                    (Ok(upstreams), t) => match read_u64(t, "status uptime"@) {
                        (Err(e), t) => (Err(e), t),
                        (Ok(uptime_secs), t) => match read_string(t, "status version"@) {
                            (Err(e), t) => (Err(e), t),
                            (Ok(version), t) => (
                                Ok(
                                    StatusModel {
                                        records,
                                        cached,
                                        peers,
                                        upstreams,
                                        uptime_secs,
                                        version,
                                    },
                                ),
                                t,
                            ),
                        },
                    },
                },
            },
        },
    }
}

/// Read a batch of records.
#[verifier::opaque]
pub open spec fn read_batch(s: Seq<u8>) -> Parse<ResponseModel> {
    match read_u32(s, "sync count"@) {
        (Err(e), t) => (Err(e), t),
        (Ok(count), t) => if count > MAX_SYNC_BATCH {
            (
                Err(
                    ErrorModel::Protocol(
                        "sync batch of "@ + dec(count as nat) + " exceeds the "@ + dec(
                            MAX_SYNC_BATCH as nat,
                        ) + " cap"@,
                    ),
                ),
                t,
            )
        } else {
            match read_u8(t, "sync complete"@) {
                (Err(e), t) => (Err(e), t),
                (Ok(complete), t) => match read_records(t, count as nat) {
                    (Err(e), t) => (Err(e), t),
                    (Ok(records), t) => (
                        Ok(ResponseModel::Records { records, complete: complete != 0 }),
                        t,
                    ),
                },
            }
        },
    }
}

/// Read the payload of a response of a given type.
#[verifier::opaque]
pub open spec fn read_response(frame_type: u8, s: Seq<u8>) -> Parse<ResponseModel> {
    if frame_type == RESP_ANSWER {
        read_answer(s)
    } else if frame_type == RESP_PUBLISHED {
        match read_u64(s, "published serial"@) {
            (Err(e), t) => (Err(e), t),
            (Ok(serial), t) => match read_u64(t, "published expires_at"@) {
                (Err(e), t) => (Err(e), t),
                (Ok(expires_at), t) => (Ok(ResponseModel::Published { serial, expires_at }), t),
            },
        }
    } else if frame_type == RESP_STATUS {
        match read_status(s) {
            (Err(e), t) => (Err(e), t),
            (Ok(info), t) => (Ok(ResponseModel::Status(info)), t),
        }
    } else if frame_type == RESP_RECORDS {
        read_batch(s)
    } else if frame_type == RESP_ERROR {
        match read_u16(s, "error code"@) {
            (Err(e), t) => (Err(e), t),
            (Ok(code), t) => match read_string(t, "error message"@) {
                (Err(e), t) => (Err(e), t),
                (Ok(message), t) => (
                    Ok(ResponseModel::Error { code: code_of(code), message }),
                    t,
                ),
            },
        }
    } else {
        (Err(ErrorModel::Protocol("unknown response type "@ + hex_prefixed(frame_type as nat))), s)
    }
}

/// A response out of a frame, with nothing left over.
pub open spec fn response_decoded(frame_type: u8, s: Seq<u8>) -> std::result::Result<
    ResponseModel,
    ErrorModel,
> {
    match read_response(frame_type, s) {
        (Err(e), _) => Err(e),
        (Ok(r), t) => match finished(t, "response"@) {
            Err(e) => Err(e),
            Ok(_) => Ok(r),
        },
    }
}

/// A response as the error it is to a caller that wanted something else.
pub open spec fn server_error(r: ResponseModel) -> ErrorModel {
    match r {
        ResponseModel::Error { code, message } => ErrorModel::Server {
            code: code_number(code),
            message,
        },
        other => ErrorModel::Protocol("unexpected response: "@ + response_shown(other)),
    }
}

fn put_optional(buf: &mut Vec<u8>, o: &Option<Box<SignedRecord>>)
    ensures
        final(buf)@ == old(buf)@ + optional_bytes(opt_boxed(*o)),
{
    let ghost before = buf@;
    match o {
        Some(rec) => {
            put_u8(buf, 1);
            rec.encode_into(buf);
            assert(buf@ =~= before + optional_bytes(opt_boxed(*o)));
        },
        None => put_u8(buf, 0),
    }
}

fn decode_optional(r: &mut Reader<'_>, what: &str) -> (out: Result<Option<Box<SignedRecord>>>)
    ensures
        match out {
            Ok(o) => read_optional(old(r)@, what@) == (
                Ok::<Option<SignedModel>, ErrorModel>(opt_boxed(o)),
                final(r)@,
            ),
            Err(e) => read_optional(old(r)@, what@) == (
                Err::<Option<SignedModel>, ErrorModel>(e@),
                final(r)@,
            ),
        },
{
    proof {
        reveal(read_optional);
    }
    let present: u8 = r.u8(join2(what, " presence").as_str())?;
    if present == 0 {
        Ok(None)
    } else if present == 1 {
        let rec = SignedRecord::decode_from(r)?;
        Ok(Some(Box::new(rec)))
    } else {
        let mut m = join3("invalid ", what, " presence byte ");
        push_hex_prefixed(&mut m, present as u64);
        Err(Error::Protocol(m))
    }
}

impl StatusInfo {
    fn encode_into(&self, buf: &mut Vec<u8>)
        ensures
            final(buf)@ == old(buf)@ + status_bytes(self@),
    {
        let ghost before = buf@;
        put_u64(buf, self.records);
        put_u64(buf, self.cached);
        put_u32(buf, self.peers);
        put_u32(buf, self.upstreams);
        put_u64(buf, self.uptime_secs);
        put_string(buf, self.version.as_str());
        proof {
            let (a, b, c) = (be64(self.records), be64(self.cached), be32(self.peers));
            let (d, e, f) = (
                be32(self.upstreams),
                be64(self.uptime_secs),
                string_bytes(self.version@),
            );
            join_assoc(before, a, b);
            join_assoc(before, a + b, c);
            join_assoc(before, a + b + c, d);
            join_assoc(before, a + b + c + d, e);
            join_assoc(before, a + b + c + d + e, f);
        }
    }

    fn decode_from(r: &mut Reader<'_>) -> (out: Result<Self>)
        ensures
            (outcome(out), final(r)@) == read_status(old(r)@),
    {
        proof {
            reveal(read_status);
        }
        let records: u64 = r.u64("status records")?;
        let cached: u64 = r.u64("status cached")?;
        let peers: u32 = r.u32("status peers")?;
        let upstreams: u32 = r.u32("status upstreams")?;
        let uptime_secs: u64 = r.u64("status uptime")?;
        let version = r.string("status version")?;
        Ok(StatusInfo { records, cached, peers, upstreams, uptime_secs, version })
    }
}

/// Append signed records, one after another.
fn put_records(buf: &mut Vec<u8>, v: &Vec<SignedRecord>)
    ensures
        final(buf)@ == old(buf)@ + records_bytes(signed_models(v@)),
{
    let ghost before = buf@;
    let ghost model = signed_models(v@);
    let mut i: usize = 0;
    proof {
        assert(model.subrange(0, 0) =~= seq![]);
        assert(before + records_bytes(model.subrange(0, 0)) =~= before);
    }
    while i < v.len()
        invariant
            i <= v@.len(),
            model == signed_models(v@),
            buf@ == before + records_bytes(model.subrange(0, i as int)),
        decreases v@.len() - i,
    {
        v[i].encode_into(buf);
        proof {
            let done = model.subrange(0, i + 1);
            assert(done.drop_last() =~= model.subrange(0, i as int));
            join_assoc(before, records_bytes(done.drop_last()), signed_bytes(done.last()));
        }
        i += 1;
    }
    proof {
        assert(model.subrange(0, i as int) =~= model);
    }
}

impl Response {
    pub fn frame_type(&self) -> (t: u8)
        ensures
            t == response_type(self@),
    {
        match self {
            Response::Answer { .. } => RESP_ANSWER,
            Response::Published { .. } => RESP_PUBLISHED,
            Response::Status(_) => RESP_STATUS,
            Response::Records { .. } => RESP_RECORDS,
            Response::Error { .. } => RESP_ERROR,
        }
    }

    pub fn error(code: ErrorCode, message: &str) -> (r: Self)
        ensures
            r@ == (ResponseModel::Error { code, message: message@ }),
    {
        Response::Error { code, message: String::from_str(message) }
    }

    pub fn encode_payload(&self) -> (buf: Vec<u8>)
        ensures
            buf@ == response_bytes(self@),
    {
        let mut buf: Vec<u8> = Vec::new();
        match self {
            Response::Answer { record, successor } => {
                put_optional(&mut buf, record);
                put_optional(&mut buf, successor);
            },
            Response::Published { serial, expires_at } => {
                put_u64(&mut buf, *serial);
                put_u64(&mut buf, *expires_at);
            },
            Response::Status(info) => info.encode_into(&mut buf),
            Response::Records { records, complete } => {
                put_u32(&mut buf, (records.len() as u64 % 0x1_0000_0000) as u32);
                put_u8(
                    &mut buf,
                    if *complete {
                        1
                    } else {
                        0
                    },
                );
                put_records(&mut buf, records);
            },
            Response::Error { code, message } => {
                put_u16(&mut buf, code.to_u16());
                put_string(&mut buf, message.as_str());
            },
        }
        assert(buf@ =~= response_bytes(self@));
        buf
    }

    fn decode_batch(r: &mut Reader<'_>) -> (out: Result<Self>)
        ensures
            (outcome(out), final(r)@) == read_batch(old(r)@),
    {
        proof {
            reveal(read_batch);
        }
        let count: u32 = r.u32("sync count")?;
        if count > MAX_SYNC_BATCH as u32 {
            let mut m = String::from_str("sync batch of ");
            push_dec(&mut m, count as u64);
            m.append(" exceeds the ");
            push_dec(&mut m, MAX_SYNC_BATCH as u64);
            m.append(" cap");
            return Err(Error::Protocol(m));
        }
        let complete: u8 = r.u8("sync complete")?;
        let records = decode_records(count as usize, r)?;
        Ok(Response::Records { records, complete: complete != 0 })
    }

    fn decode_from(frame_type: u8, r: &mut Reader<'_>) -> (out: Result<Self>)
        ensures
            (outcome(out), final(r)@) == read_response(frame_type, old(r)@),
    {
        proof {
            reveal(read_response);
            reveal(read_answer);
        }
        if frame_type == RESP_ANSWER {
            let record = decode_optional(r, "answer")?;
            let successor = decode_optional(r, "successor")?;
            Ok(Response::Answer { record, successor })
        } else if frame_type == RESP_PUBLISHED {
            let serial: u64 = r.u64("published serial")?;
            let expires_at: u64 = r.u64("published expires_at")?;
            Ok(Response::Published { serial, expires_at })
        } else if frame_type == RESP_STATUS {
            let info = StatusInfo::decode_from(r)?;
            Ok(Response::Status(info))
        } else if frame_type == RESP_RECORDS {
            Self::decode_batch(r)
        } else if frame_type == RESP_ERROR {
            let code: u16 = r.u16("error code")?;
            let message = r.string("error message")?;
            Ok(Response::Error { code: ErrorCode::from_u16(code), message })
        } else {
            let mut m = String::from_str("unknown response type ");
            push_hex_prefixed(&mut m, frame_type as u64);
            Err(Error::Protocol(m))
        }
    }

    pub fn decode(frame_type: u8, payload: &[u8]) -> (out: Result<Self>)
        ensures
            outcome(out) == response_decoded(frame_type, payload@),
    {
        let mut r = Reader::new(payload);
        let resp = Self::decode_from(frame_type, &mut r)?;
        r.finish("response")?;
        Ok(resp)
    }

    /// Turn a wire-level `Error` response into a local error.
    pub fn into_server_error(self) -> (e: Error)
        ensures
            e@ == server_error(self@),
    {
        match self {
            Response::Error { code, message } => Error::Server { code: code.to_u16(), message },
            other => Error::Protocol(join2("unexpected response: ", other.shown().as_str())),
        }
    }
}

/// An optional record that its encoding carries exactly.
pub open spec fn optional_fits(o: Option<SignedModel>) -> bool {
    o matches Some(s) ==> signed_fits(s)
}

/// A response that its encoding carries exactly: records that fit, at most
/// as many as a batch may hold, and texts of at most 65535 bytes.
pub open spec fn response_fits(r: ResponseModel) -> bool {
    match r {
        ResponseModel::Answer { record, successor } => optional_fits(record) && optional_fits(
            successor,
        ),
        ResponseModel::Status(s) => encode_utf8(s.version).len() <= 0xffff,
        ResponseModel::Records { records, .. } => records.len() <= MAX_SYNC_BATCH && records_fit(
            records,
        ),
        ResponseModel::Error { message, .. } => encode_utf8(message).len() <= 0xffff,
        ResponseModel::Published { .. } => true,
    }
}

proof fn optional_read_back(o: Option<SignedModel>, tail: Seq<u8>, what: Seq<char>)
    requires
        optional_fits(o),
    ensures
        read_optional(optional_bytes(o) + tail, what) == (
            Ok::<Option<SignedModel>, ErrorModel>(o),
            tail,
        ),
{
    reveal(read_optional);
    match o {
        Some(s) => {
            join_assoc(seq![1u8], signed_bytes(s), tail);
            u8_read_back(1, signed_bytes(s) + tail, what + " presence"@);
            signed_read_back(s, tail);
        },
        None => u8_read_back(0, tail, what + " presence"@),
    }
}

proof fn status_read_back(s: StatusModel, tail: Seq<u8>)
    requires
        encode_utf8(s.version).len() <= 0xffff,
    ensures
        read_status(status_bytes(s) + tail) == (Ok::<StatusModel, ErrorModel>(s), tail),
{
    reveal(read_status);
    let (a, b, c) = (be64(s.records), be64(s.cached), be32(s.peers));
    let (d, e, f) = (be32(s.upstreams), be64(s.uptime_secs), string_bytes(s.version));
    let t5 = f + tail;
    let t4 = e + t5;
    let t3 = d + t4;
    let t2 = c + t3;
    let t1 = b + t2;
    join_assoc(a + b + c + d + e, f, tail);
    join_assoc(a + b + c + d, e, t5);
    join_assoc(a + b + c, d, t4);
    join_assoc(a + b, c, t3);
    join_assoc(a, b, t2);
    u64_read_back(s.records, t1, "status records"@);
    u64_read_back(s.cached, t2, "status cached"@);
    u32_read_back(s.peers, t3, "status peers"@);
    u32_read_back(s.upstreams, t4, "status upstreams"@);
    u64_read_back(s.uptime_secs, t5, "status uptime"@);
    string_read_back(s.version, tail, "status version"@);
}

/// A response that fits decodes from its encoding to itself.
pub proof fn response_round_trip(r: Response)
    requires
        response_fits(r@),
    ensures
        response_decoded(response_type(r@), response_bytes(r@)) == Ok::<ResponseModel, ErrorModel>(
            r@,
        ),
{
    reveal(read_response);
    let none = Seq::<u8>::empty();
    match r@ {
        ResponseModel::Answer { record, successor } => {
            reveal(read_answer);
            optional_read_back(record, optional_bytes(successor), "answer"@);
            optional_read_back(successor, none, "successor"@);
            assert(optional_bytes(successor) + none =~= optional_bytes(successor));
        },
        ResponseModel::Published { serial, expires_at } => {
            u64_read_back(serial, be64(expires_at), "published serial"@);
            u64_read_back(expires_at, none, "published expires_at"@);
            assert(be64(expires_at) + none =~= be64(expires_at));
        },
        ResponseModel::Status(s) => {
            status_read_back(s, none);
            assert(status_bytes(s) + none =~= status_bytes(s));
        },
        ResponseModel::Records { records, complete } => {
            reveal(read_batch);
            let n = records.len() as u32;
            let c: u8 = if complete { 1 } else { 0 };
            let rs = records_bytes(records);
            join_assoc(be32(n), seq![c], rs);
            u32_read_back(n, seq![c] + rs, "sync count"@);
            u8_read_back(c, rs, "sync complete"@);
            records_read_back(records, none);
            assert(rs + none =~= rs);
        },
        ResponseModel::Error { code, message } => {
            u16_read_back(code_number(code), string_bytes(message), "error code"@);
            string_read_back(message, none, "error message"@);
            assert(string_bytes(message) + none =~= string_bytes(message));
            error_codes_round_trip(code);
        },
    }
}

// ---------------------------------------------------------------------------
// Frames
// ---------------------------------------------------------------------------

/// The five bytes in front of a payload.
pub open spec fn header_bytes(frame_type: u8, len: u32) -> Seq<u8> {
    seq![frame_type] + be32(len)
}

/// A message longer than any frame may be.
pub open spec fn too_long_to_send(len: nat) -> ErrorModel {
    ErrorModel::Protocol(
        "message of "@ + dec(len) + " bytes exceeds the "@ + dec(MAX_MESSAGE_LEN as nat)
            + " byte cap"@,
    )
}

/// A frame announced to be longer than any may be.
pub open spec fn too_long_to_read(len: nat) -> ErrorModel {
    ErrorModel::Protocol(
        "peer announced a "@ + dec(len) + " byte message, over the "@ + dec(MAX_MESSAGE_LEN as nat)
            + " byte cap"@,
    )
}

/// `[type][len][payload]`, unless the payload is over the cap.
pub open spec fn framed(frame_type: u8, payload: Seq<u8>) -> std::result::Result<
    Seq<u8>,
    ErrorModel,
> {
    if payload.len() > MAX_MESSAGE_LEN {
        Err(too_long_to_send(payload.len()))
    } else {
        Ok(header_bytes(frame_type, payload.len() as u32) + payload)
    }
}

/// What a header announces, unless it is over the cap.
pub open spec fn header_read(header: Seq<u8>) -> std::result::Result<(u8, u32), ErrorModel> {
    let len = from_be32(header.subrange(1, 5));
    if len > MAX_MESSAGE_LEN {
        Err(too_long_to_read(len as nat))
    } else {
        Ok((header[0], len))
    }
}

/// The bytes of a frame: what is written to a stream.
pub fn encode_frame(frame_type: u8, payload: &[u8]) -> (r: Result<Vec<u8>>)
    ensures
        outcome(r) == framed(frame_type, payload@),
{
    if payload.len() > MAX_MESSAGE_LEN as usize {
        let mut m = String::from_str("message of ");
        push_dec(&mut m, payload.len() as u64);
        m.append(" bytes exceeds the ");
        push_dec(&mut m, MAX_MESSAGE_LEN as u64);
        m.append(" byte cap");
        return Err(Error::Protocol(m));
    }
    let mut out: Vec<u8> = Vec::new();
    put_u8(&mut out, frame_type);
    put_u32(&mut out, payload.len() as u32);
    assert(out@ =~= header_bytes(frame_type, payload@.len() as u32));
    put_bytes(&mut out, payload);
    Ok(out)
}

/// What the first five bytes of a frame announce: its type, and how many bytes
/// of payload follow.
pub fn decode_header(header: &[u8; 5]) -> (r: Result<(u8, u32)>)
    ensures
        outcome(r) == header_read(header@),
{
    proof {
        reveal(from_be32);
        reveal(from_be16);
    }
    let hi: u32 = header[1] as u32 * 0x100 + header[2] as u32;
    let lo: u32 = header[3] as u32 * 0x100 + header[4] as u32;
    let len: u32 = hi * 0x1_0000 + lo;
    if len > MAX_MESSAGE_LEN {
        let mut m = String::from_str("peer announced a ");
        push_dec(&mut m, len as u64);
        m.append(" byte message, over the ");
        push_dec(&mut m, MAX_MESSAGE_LEN as u64);
        m.append(" byte cap");
        return Err(Error::Protocol(m));
    }
    Ok((header[0], len))
}

/// A frame that can be sent is announced as it is.
pub proof fn frames_announce_themselves(frame_type: u8, payload: Seq<u8>)
    requires
        payload.len() <= MAX_MESSAGE_LEN,
    ensures
        framed(frame_type, payload) matches Ok(f) && header_read(f.subrange(0, 5)) == Ok::<
            (u8, u32),
            ErrorModel,
        >((frame_type, payload.len() as u32)) && f.subrange(5, f.len() as int) == payload,
{
    let n = payload.len() as u32;
    be32_round_trip(n, seq![]);
    let f = header_bytes(frame_type, n) + payload;
    assert(f.subrange(0, 5).subrange(1, 5) =~= be32(n));
    assert(f.subrange(5, f.len() as int) =~= payload);
}

} // verus!
