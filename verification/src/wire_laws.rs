//! Laws of the wire: which byte stands where, and what it counts.

use vstd::prelude::*;
use vstd::string::*;
use vstd::utf8::*;

use crate::codec::{
    be16, be32, be64, from_be16, from_be32, from_be64, read_bytes, read_u16, read_u32, read_u64,
    read_u8, short_string_bytes, string_bytes,
};
use crate::delegation::{
    DELEGATION_CONTEXT, DelegationFileModel, delegation_file_bytes, delegation_file_decoded,
    delegation_message,
};
use crate::endpoint::{EndpointModel, HostModel, endpoint_bytes, endpoints_bytes};
use crate::error::ErrorModel;
use crate::key::{ed25519_verifies, is_curve_point, key_len};
use crate::protocol::{
    ErrorCode, RequestModel, ResponseModel, capped, code_name, code_number, code_of, framed,
    header_bytes, header_read, read_batch, read_optional, read_response, request_bytes,
    request_decoded, request_type, response_bytes, response_decoded, response_fits, response_type,
    server_error,
};
use crate::record::{
    BodyModel, RecordModel, SIG_CONTEXT, SignedModel, body_bytes, body_fits, read_signed,
    record_bytes, record_fits, record_message, signed_bytes, signed_fits, validated,
};
use crate::snapshot::{
    bindings_bytes, read_snapshot, records_bytes, records_fit, snapshot_bytes, snapshot_decoded,
};

verus! {

broadcast use key_len;

// ---------------------------------------------------------------------------
// Numbers
// ---------------------------------------------------------------------------

/// The number that bytes stand for, the first byte counting most.
pub open spec fn number_in(b: Seq<u8>) -> nat
    decreases b.len(),
{
    if b.len() == 0 {
        0
    } else {
        number_in(b.drop_last()) * 256 + b.last() as nat
    }
}

/// The number in two runs of bytes, where the second is two, four or eight
/// bytes long.
proof fn number_in_joined(a: Seq<u8>, b: Seq<u8>)
    ensures
        b.len() == 0 ==> number_in(a + b) == number_in(a),
        b.len() == 1 ==> number_in(a + b) == number_in(a) * 0x100 + number_in(b),
        b.len() == 2 ==> number_in(a + b) == number_in(a) * 0x1_0000 + number_in(b),
        b.len() == 4 ==> number_in(a + b) == number_in(a) * 0x1_0000_0000 + number_in(b),
{
    reveal_with_fuel(number_in, 5);
    if b.len() == 0 {
        assert(a + b =~= a);
    } else {
        let c = b.drop_last();
        assert((a + b).drop_last() =~= a + c);
        if c.len() == 0 {
            assert(a + c =~= a);
        } else {
            let d = c.drop_last();
            assert((a + c).drop_last() =~= a + d);
            if d.len() == 0 {
                assert(a + d =~= a);
            } else {
                let e = d.drop_last();
                assert((a + d).drop_last() =~= a + e);
                if e.len() == 0 {
                    assert(a + e =~= a);
                } else {
                    let f = e.drop_last();
                    assert((a + e).drop_last() =~= a + f);
                    if f.len() == 0 {
                        assert(a + f =~= a);
                    }
                }
            }
        }
    }
}

/// A number is written in as many bytes as its type has, the highest first.
pub proof fn numbers_are_written_highest_byte_first(a: u16, b: u32, c: u64)
    ensures
        be16(a).len() == 2,
        be32(b).len() == 4,
        be64(c).len() == 8,
        number_in(be16(a)) == a,
        number_in(be32(b)) == b,
        number_in(be64(c)) == c,
{
    a_pair_is_its_number(a);
    a_quad_is_its_number(b);
    let (high, low) = ((c / 0x1_0000_0000) as u32, (c % 0x1_0000_0000) as u32);
    a_quad_is_its_number(high);
    a_quad_is_its_number(low);
    number_in_joined(be32(high), be32(low));
    reveal(be64);
}

proof fn a_pair_is_its_number(a: u16)
    ensures
        be16(a).len() == 2,
        number_in(be16(a)) == a,
{
    reveal(be16);
    reveal_with_fuel(number_in, 3);
    let s = be16(a);
    assert(s.drop_last() =~= seq![s[0]]);
    assert(s.drop_last().drop_last() =~= seq![]);
}

proof fn a_quad_is_its_number(b: u32)
    ensures
        be32(b).len() == 4,
        number_in(be32(b)) == b,
{
    let (high, low) = ((b / 0x1_0000) as u16, (b % 0x1_0000) as u16);
    a_pair_is_its_number(high);
    a_pair_is_its_number(low);
    number_in_joined(be16(high), be16(low));
    reveal(be32);
}

/// Any bytes are read as the number they stand for.
pub proof fn numbers_are_read_highest_byte_first(a: Seq<u8>, b: Seq<u8>, c: Seq<u8>)
    requires
        a.len() == 2,
        b.len() == 4,
        c.len() == 8,
    ensures
        from_be16(a) == number_in(a),
        from_be32(b) == number_in(b),
        from_be64(c) == number_in(c),
{
    a_pair_reads_as_its_number(a);
    a_quad_reads_as_its_number(b);
    let (high, low) = (c.subrange(0, 4), c.subrange(4, 8));
    a_quad_reads_as_its_number(high);
    a_quad_reads_as_its_number(low);
    number_in_joined(high, low);
    assert(high + low =~= c);
    reveal(from_be64);
}

proof fn a_pair_reads_as_its_number(a: Seq<u8>)
    requires
        a.len() == 2,
    ensures
        from_be16(a) == number_in(a),
{
    reveal(from_be16);
    reveal_with_fuel(number_in, 3);
    assert(a.drop_last() =~= seq![a[0]]);
    assert(a.drop_last().drop_last() =~= seq![]);
}

proof fn a_quad_reads_as_its_number(b: Seq<u8>)
    requires
        b.len() == 4,
    ensures
        from_be32(b) == number_in(b),
{
    let (high, low) = (b.subrange(0, 2), b.subrange(2, 4));
    a_pair_reads_as_its_number(high);
    a_pair_reads_as_its_number(low);
    number_in_joined(high, low);
    assert(high + low =~= b);
    reveal(from_be32);
}

/// A read takes from the front just what it needs, or fails and leaves all of
/// it.
pub proof fn reads_take_from_the_front(s: Seq<u8>, n: nat, what: Seq<char>)
    ensures
        read_bytes(s, n, what).0 is Ok <==> s.len() >= n,
        read_bytes(s, n, what).0 matches Ok(b) ==> b.len() == n && b + read_bytes(s, n, what).1 == s,
        read_bytes(s, n, what).0 is Err ==> read_bytes(s, n, what).1 == s,
{
    reveal(read_bytes);
    if s.len() >= n {
        assert(s.subrange(0, n as int) + s.subrange(n as int, s.len() as int) =~= s);
    }
}

/// Reading a number takes as many bytes as its type has.
pub proof fn numbers_are_read_from_the_front(s: Seq<u8>, what: Seq<char>)
    ensures
        read_u8(s, what).0 is Ok <==> s.len() >= 1,
        read_u8(s, what).0 matches Ok(v) ==> v == s[0] && read_u8(s, what).1 == s.skip(1),
        read_u16(s, what).0 is Ok <==> s.len() >= 2,
        read_u16(s, what).0 matches Ok(v) ==> v == number_in(s.take(2)) && read_u16(s, what).1
            == s.skip(2),
        read_u32(s, what).0 is Ok <==> s.len() >= 4,
        read_u32(s, what).0 matches Ok(v) ==> v == number_in(s.take(4)) && read_u32(s, what).1
            == s.skip(4),
        read_u64(s, what).0 is Ok <==> s.len() >= 8,
        read_u64(s, what).0 matches Ok(v) ==> v == number_in(s.take(8)) && read_u64(s, what).1
            == s.skip(8),
{
    reveal(read_bytes);
    reveal(read_u8);
    reveal(read_u16);
    reveal(read_u32);
    reveal(read_u64);
    if s.len() >= 1 {
        assert(s.subrange(1, s.len() as int) =~= s.skip(1));
    }
    if s.len() >= 2 {
        a_pair_reads_as_its_number(s.take(2));
        assert(s.subrange(0, 2) =~= s.take(2));
        assert(s.subrange(2, s.len() as int) =~= s.skip(2));
    }
    if s.len() >= 4 {
        a_quad_reads_as_its_number(s.take(4));
        assert(s.subrange(0, 4) =~= s.take(4));
        assert(s.subrange(4, s.len() as int) =~= s.skip(4));
    }
    if s.len() >= 8 {
        numbers_are_read_highest_byte_first(s.take(2), s.take(4), s.take(8));
        assert(s.subrange(0, 8) =~= s.take(8));
        assert(s.subrange(8, s.len() as int) =~= s.skip(8));
    }
}

/// Text is written behind the number of its bytes.
pub proof fn text_is_written_behind_its_length(s: Seq<char>)
    ensures
        encode_utf8(s).len() <= 255 ==> {
            let b = short_string_bytes(s);
            &&& b.len() == 1 + encode_utf8(s).len()
            &&& b[0] == encode_utf8(s).len()
            &&& b.skip(1) == encode_utf8(s)
        },
        encode_utf8(s).len() <= 65535 ==> {
            let b = string_bytes(s);
            &&& b.len() == 2 + encode_utf8(s).len()
            &&& number_in(b.take(2)) == encode_utf8(s).len()
            &&& b.skip(2) == encode_utf8(s)
        },
{
    reveal(short_string_bytes);
    reveal(string_bytes);
    let t = encode_utf8(s);
    if t.len() <= 255 {
        assert(short_string_bytes(s).skip(1) =~= t);
    }
    if t.len() <= 65535 {
        a_pair_is_its_number(t.len() as u16);
        assert(string_bytes(s).take(2) =~= be16(t.len() as u16));
        assert(string_bytes(s).skip(2) =~= t);
    }
}

// ---------------------------------------------------------------------------
// Records
// ---------------------------------------------------------------------------

/// Where the parts of a record stand: its version in the first byte, the key,
/// the delegation's identity, date and signature, the serial, the time of
/// issue, the ttl, and the kind of its body.
pub proof fn where_the_parts_of_a_record_stand(r: RecordModel)
    requires
        r.key.len() == 32,
        r.delegation.identity.len() == 32,
        r.delegation.signature.len() == 64,
    ensures
        ({
            let b = record_bytes(r);
            &&& b.len() >= 158
            &&& b[0] == 4
            &&& b.subrange(1, 33) == r.key
            &&& b.subrange(33, 65) == r.delegation.identity
            &&& number_in(b.subrange(65, 73)) == r.delegation.not_after
            &&& b.subrange(73, 137) == r.delegation.signature
            &&& number_in(b.subrange(137, 145)) == r.serial
            &&& number_in(b.subrange(145, 153)) == r.issued_at
            &&& number_in(b.subrange(153, 157)) == r.ttl
            &&& b[157] == match r.body {
                BodyModel::Live { .. } => 1u8,
                BodyModel::Superseded { .. } => 2u8,
                BodyModel::Revoked { .. } => 3u8,
            }
            &&& b.skip(157) == body_bytes(r.body)
        }),
{
    let b = record_bytes(r);
    numbers_are_written_highest_byte_first(0, r.ttl, r.delegation.not_after);
    numbers_are_written_highest_byte_first(0, r.ttl, r.serial);
    numbers_are_written_highest_byte_first(0, r.ttl, r.issued_at);
    assert(body_bytes(r.body).len() >= 1);
    assert(b.subrange(1, 33) =~= r.key);
    assert(b.subrange(33, 65) =~= r.delegation.identity);
    assert(b.subrange(65, 73) =~= be64(r.delegation.not_after));
    assert(b.subrange(73, 137) =~= r.delegation.signature);
    assert(b.subrange(137, 145) =~= be64(r.serial));
    assert(b.subrange(145, 153) =~= be64(r.issued_at));
    assert(b.subrange(153, 157) =~= be32(r.ttl));
    assert(b.skip(157) =~= body_bytes(r.body));
}

/// A live body counts its endpoints; a retirement carries its reason, and one
/// with a successor the successor's key before it.
pub proof fn where_the_parts_of_a_body_stand(b: BodyModel)
    requires
        body_fits(b),
    ensures
        match b {
            BodyModel::Live { endpoints } => body_bytes(b)[0] == 1 && body_bytes(b)[1]
                == endpoints.len() && body_bytes(b).skip(2) == endpoints_bytes(endpoints),
            BodyModel::Superseded { successor, reason } => body_bytes(b)[0] == 2 && body_bytes(
                b,
            ).subrange(1, 33) == successor && body_bytes(b).skip(33) == string_bytes(reason),
            BodyModel::Revoked { reason } => body_bytes(b)[0] == 3 && body_bytes(b).skip(1)
                == string_bytes(reason),
        },
{
    match b {
        BodyModel::Live { endpoints } => {
            assert(body_bytes(b).skip(2) =~= endpoints_bytes(endpoints));
        },
        BodyModel::Superseded { successor, reason } => {
            assert(body_bytes(b).subrange(1, 33) =~= successor);
            assert(body_bytes(b).skip(33) =~= string_bytes(reason));
        },
        BodyModel::Revoked { reason } => {
            assert(body_bytes(b).skip(1) =~= string_bytes(reason));
        },
    }
}

/// Endpoints follow one another, and each is its priority, its weight, its
/// port and its host: one byte for the kind, then four bytes, sixteen, or a
/// name behind its length.
pub proof fn where_the_parts_of_an_endpoint_stand(v: Seq<EndpointModel>, e: EndpointModel)
    ensures
        endpoints_bytes(v.push(e)) == endpoints_bytes(v) + endpoint_bytes(e),
        ({
            let b = endpoint_bytes(e);
            &&& b.len() >= 7
            &&& number_in(b.subrange(0, 2)) == e.priority
            &&& number_in(b.subrange(2, 4)) == e.weight
            &&& number_in(b.subrange(4, 6)) == e.port
            &&& match e.host {
                HostModel::V4(a) => b[6] == 1 && b.skip(7) == a,
                HostModel::V6(a) => b[6] == 2 && b.skip(7) == a,
                HostModel::Name(n) => b[6] == 3 && b.skip(7) == short_string_bytes(n),
            }
        }),
{
    assert(v.push(e).drop_last() =~= v);
    let b = endpoint_bytes(e);
    a_pair_is_its_number(e.priority);
    a_pair_is_its_number(e.weight);
    a_pair_is_its_number(e.port);
    assert(b.subrange(0, 2) =~= be16(e.priority));
    assert(b.subrange(2, 4) =~= be16(e.weight));
    assert(b.subrange(4, 6) =~= be16(e.port));
    match e.host {
        HostModel::V4(a) => {
            assert(b.skip(7) =~= a);
        },
        HostModel::V6(a) => {
            assert(b.skip(7) =~= a);
        },
        HostModel::Name(n) => {
            assert(b.skip(7) =~= short_string_bytes(n));
        },
    }
}

/// A signed record is the length of the record in two bytes, the record, and
/// the 64 bytes of its signature.
pub proof fn where_the_parts_of_a_signed_record_stand(s: SignedModel)
    requires
        record_bytes(s.record).len() <= 65535,
        s.signature.len() == 64,
    ensures
        ({
            let b = signed_bytes(s);
            let n = record_bytes(s.record).len() as int;
            &&& b.len() == n + 66
            &&& number_in(b.take(2)) == n
            &&& b.subrange(2, 2 + n) == record_bytes(s.record)
            &&& b.skip(2 + n) == s.signature
        }),
{
    let b = signed_bytes(s);
    let n = record_bytes(s.record).len() as int;
    a_pair_is_its_number(n as u16);
    assert(b.take(2) =~= be16(n as u16));
    assert(b.subrange(2, 2 + n) =~= record_bytes(s.record));
    assert(b.skip(2 + n) =~= s.signature);
}

// ---------------------------------------------------------------------------
// What is signed
// ---------------------------------------------------------------------------

/// What the signature of a record covers: the words `sqns-record-v4` and then
/// every byte of the record.
pub proof fn what_a_record_signature_covers(b: Seq<u8>)
    ensures
        record_message(b).take(14) == seq![
            115u8,
            113u8,
            110u8,
            115u8,
            45u8,
            114u8,
            101u8,
            99u8,
            111u8,
            114u8,
            100u8,
            45u8,
            118u8,
            52u8,
        ],
        record_message(b).skip(14) == b,
{
    reveal_strlit("sqns-record-v4");
    is_ascii_chars_encode_utf8(SIG_CONTEXT@);
    assert(SIG_CONTEXT.spec_bytes().len() == 14);
    assert(record_message(b).take(14) =~= SIG_CONTEXT.spec_bytes());
    assert(record_message(b).skip(14) =~= b);
}

/// What the signature of a delegation covers: the words `sqns-delegation-v2`,
/// the identity, the service key and the date. So a delegation holds for one
/// key, one identity and one date.
pub proof fn what_a_delegation_signature_covers(
    identity: Seq<u8>,
    key: Seq<u8>,
    not_after: u64,
)
    requires
        identity.len() == 32,
        key.len() == 32,
    ensures
        ({
            let m = delegation_message(identity, key, not_after);
            &&& m.len() == 90
            &&& m.take(18) == seq![
                115u8,
                113u8,
                110u8,
                115u8,
                45u8,
                100u8,
                101u8,
                108u8,
                101u8,
                103u8,
                97u8,
                116u8,
                105u8,
                111u8,
                110u8,
                45u8,
                118u8,
                50u8,
            ]
            &&& m.subrange(18, 50) == identity
            &&& m.subrange(50, 82) == key
            &&& number_in(m.subrange(82, 90)) == not_after
        }),
{
    let m = delegation_message(identity, key, not_after);
    reveal_strlit("sqns-delegation-v2");
    is_ascii_chars_encode_utf8(DELEGATION_CONTEXT@);
    assert(DELEGATION_CONTEXT.spec_bytes().len() == 18);
    numbers_are_written_highest_byte_first(0, 0, not_after);
    assert(m.take(18) =~= DELEGATION_CONTEXT.spec_bytes());
    assert(m.subrange(18, 50) =~= identity);
    assert(m.subrange(50, 82) =~= key);
    assert(m.subrange(82, 90) =~= be64(not_after));
}

// ---------------------------------------------------------------------------
// Requests and responses
// ---------------------------------------------------------------------------

/// The numbers of requests, and what stands in them.
pub proof fn where_the_parts_of_a_request_stand(r: RequestModel)
    ensures
        match r {
            RequestModel::Lookup { key, recurse } => request_type(r) == 1 && request_bytes(
                r,
            ).drop_last() == key && request_bytes(r).last() == recurse,
            RequestModel::Publish { record } => request_type(r) == 2 && request_bytes(r)
                == signed_bytes(record),
            RequestModel::Status => request_type(r) == 3 && request_bytes(r).len() == 0,
            RequestModel::Sync { since, limit } => request_type(r) == 4 && request_bytes(r).len()
                == 10 && number_in(request_bytes(r).take(8)) == since && number_in(
                request_bytes(r).skip(8),
            ) == limit,
            RequestModel::LookupIdentity { identity } => request_type(r) == 5 && request_bytes(r)
                == identity,
        },
{
    match r {
        RequestModel::Lookup { key, recurse } => {
            assert(request_bytes(r).drop_last() =~= key);
        },
        RequestModel::Sync { since, limit } => {
            numbers_are_written_highest_byte_first(limit, 0, since);
            assert(request_bytes(r).take(8) =~= be64(since));
            assert(request_bytes(r).skip(8) =~= be16(limit));
        },
        _ => {},
    }
}

/// The hop budget of a request is taken as it is up to eight, and as eight
/// above that.
pub proof fn a_budget_is_eight_hops_at_most(recurse: u8)
    ensures
        recurse <= 8 ==> capped(recurse) == recurse,
        recurse > 8 ==> capped(recurse) == 8,
{
}

/// A lookup that arrives is for the key in its first 32 bytes, with the hops in
/// the next one, eight at most; it is nothing else and nothing longer.
pub proof fn how_a_lookup_is_read(payload: Seq<u8>)
    ensures
        request_decoded(1, payload) is Ok <==> payload.len() == 33,
        request_decoded(1, payload) matches Ok(r) ==> (r matches RequestModel::Lookup {
            key,
            recurse,
        } && key == payload.take(32) && recurse == if payload[32] > 8 {
            8
        } else {
            payload[32]
        }),
{
    reveal(read_bytes);
    reveal(read_u8);
    if payload.len() >= 33 {
        let t = payload.subrange(32, payload.len() as int);
        assert(t[0] == payload[32]);
        assert(payload.subrange(0, 32) =~= payload.take(32));
        assert(t.subrange(1, t.len() as int).len() == payload.len() - 33);
    }
}

/// The numbers of responses, and what stands in them.
pub proof fn where_the_parts_of_a_response_stand(r: ResponseModel)
    ensures
        match r {
            ResponseModel::Answer { record, successor } => response_type(r) == 0x81
                && response_bytes(r)[0] == (if record is Some {
                1u8
            } else {
                0u8
            }) && (record is None ==> response_bytes(r)[1] == if successor is Some {
                1u8
            } else {
                0u8
            }),
            ResponseModel::Published { serial, expires_at } => response_type(r) == 0x82
                && response_bytes(r).len() == 16 && number_in(response_bytes(r).take(8)) == serial
                && number_in(response_bytes(r).skip(8)) == expires_at,
            ResponseModel::Status(s) => response_type(r) == 0x83 && number_in(
                response_bytes(r).subrange(0, 8),
            ) == s.records && number_in(response_bytes(r).subrange(8, 16)) == s.cached && number_in(
                response_bytes(r).subrange(16, 20),
            ) == s.peers && number_in(response_bytes(r).subrange(20, 24)) == s.upstreams
                && number_in(response_bytes(r).subrange(24, 32)) == s.uptime_secs
                && response_bytes(r).skip(32) == string_bytes(s.version),
            ResponseModel::Records { records, complete } => response_type(r) == 0x84 && (
            records.len() <= 0xffff_ffff ==> number_in(response_bytes(r).take(4)) == records.len())
                && response_bytes(r)[4] == (if complete {
                1u8
            } else {
                0u8
            }),
            ResponseModel::Error { code, message } => response_type(r) == 0xff && number_in(
                response_bytes(r).take(2),
            ) == code_number(code) && response_bytes(r).skip(2) == string_bytes(message),
        },
{
    let b = response_bytes(r);
    match r {
        ResponseModel::Answer { record, successor } => {},
        ResponseModel::Published { serial, expires_at } => {
            numbers_are_written_highest_byte_first(0, 0, serial);
            numbers_are_written_highest_byte_first(0, 0, expires_at);
            assert(b.take(8) =~= be64(serial));
            assert(b.skip(8) =~= be64(expires_at));
        },
        ResponseModel::Status(s) => {
            numbers_are_written_highest_byte_first(0, s.peers, s.records);
            numbers_are_written_highest_byte_first(0, s.upstreams, s.cached);
            numbers_are_written_highest_byte_first(0, 0, s.uptime_secs);
            assert(b.subrange(0, 8) =~= be64(s.records));
            assert(b.subrange(8, 16) =~= be64(s.cached));
            assert(b.subrange(16, 20) =~= be32(s.peers));
            assert(b.subrange(20, 24) =~= be32(s.upstreams));
            assert(b.subrange(24, 32) =~= be64(s.uptime_secs));
            assert(b.skip(32) =~= string_bytes(s.version));
        },
        ResponseModel::Records { records, complete } => {
            let n = (records.len() % 0x1_0000_0000) as u32;
            numbers_are_written_highest_byte_first(0, n, 0);
            assert(b.take(4) =~= be32(n));
        },
        ResponseModel::Error { code, message } => {
            numbers_are_written_highest_byte_first(code_number(code), 0, 0);
            assert(b.take(2) =~= be16(code_number(code)));
            assert(b.skip(2) =~= string_bytes(message));
        },
    }
}

/// The numbers of the error codes.
pub proof fn error_codes_have_their_numbers(c: ErrorCode)
    ensures
        code_number(c) == match c {
            ErrorCode::Malformed => 1int,
            ErrorCode::Unsupported => 2,
            ErrorCode::BadSignature => 3,
            ErrorCode::Stale => 4,
            ErrorCode::RateLimited => 5,
            ErrorCode::Internal => 6,
            ErrorCode::NotAuthorized => 7,
            ErrorCode::Revoked => 8,
            ErrorCode::BadDelegation => 9,
            ErrorCode::Superseded => 10,
            ErrorCode::UpstreamFailed => 11,
        },
        forall|v: u16| v == 0 || v > 11 ==> #[trigger] code_of(v) == ErrorCode::Internal,
{
}

/// A frame is its type, the length of its payload in four bytes, and the
/// payload, of a mebibyte at most; a longer one is neither sent nor read.
pub proof fn where_the_parts_of_a_frame_stand(frame_type: u8, payload: Seq<u8>)
    ensures
        framed(frame_type, payload) is Ok <==> payload.len() <= 1_048_576,
        framed(frame_type, payload) matches Ok(b) ==> b.len() == payload.len() + 5 && b[0]
            == frame_type && number_in(b.subrange(1, 5)) == payload.len() && b.skip(5) == payload,
{
    if payload.len() <= 1_048_576 {
        let b = header_bytes(frame_type, payload.len() as u32) + payload;
        numbers_are_written_highest_byte_first(0, payload.len() as u32, 0);
        assert(b.subrange(1, 5) =~= be32(payload.len() as u32));
        assert(b.skip(5) =~= payload);
    }
}

/// A header is read as the type and the length that stand in it, unless it
/// announces more than a mebibyte.
pub proof fn how_a_header_is_read(header: Seq<u8>)
    requires
        header.len() == 5,
    ensures
        header_read(header) is Ok <==> number_in(header.subrange(1, 5)) <= 1_048_576,
        header_read(header) matches Ok((frame_type, len)) ==> frame_type == header[0] && len
            == number_in(header.subrange(1, 5)),
{
    a_quad_reads_as_its_number(header.subrange(1, 5));
}

/// What a record of a key may hold fits its encoding: one that is sound, with
/// keys of their length and names of at most 255 bytes, can be written and
/// read back.
pub proof fn a_sound_record_fits(r: RecordModel)
    requires
        r.key.len() == 32,
        r.delegation.identity.len() == 32,
        r.delegation.signature.len() == 64,
        validated(r) is Ok,
        r.body matches BodyModel::Superseded { successor, .. } ==> successor.len() == 32,
        r.body matches BodyModel::Live { endpoints } ==> forall|i: int|
            0 <= i < endpoints.len() ==> match (#[trigger] endpoints[i]).host {
                HostModel::V4(a) => a.len() == 4,
                HostModel::V6(a) => a.len() == 16,
                HostModel::Name(n) => 1 <= n.len() && encode_utf8(n).len() <= 255,
            },
    ensures
        record_fits(r),
{
}

/// The other requests are read from payloads of just their length; a type that
/// is no request's is refused.
pub proof fn how_the_other_requests_are_read(frame_type: u8, payload: Seq<u8>)
    ensures
        request_decoded(3, payload) is Ok <==> payload.len() == 0,
        request_decoded(3, payload) matches Ok(r) ==> r is Status,
        request_decoded(4, payload) is Ok <==> payload.len() == 10,
        request_decoded(4, payload) matches Ok(r) ==> (r matches RequestModel::Sync { since, limit }
            && since == number_in(payload.take(8)) && limit == number_in(payload.skip(8))),
        request_decoded(5, payload) is Ok <==> payload.len() == 32,
        request_decoded(5, payload) matches Ok(r) ==> (r matches RequestModel::LookupIdentity {
            identity,
        } && identity == payload),
        frame_type == 0 || frame_type > 5 ==> request_decoded(frame_type, payload) is Err,
{
    numbers_are_read_from_the_front(payload, "sync since"@);
    reads_take_from_the_front(payload, 32, "lookup identity"@);
    if payload.len() >= 8 {
        let t = payload.skip(8);
        numbers_are_read_from_the_front(t, "sync limit"@);
        assert(t.len() >= 2 ==> t.skip(2).len() == payload.len() - 10);
        if payload.len() == 10 {
            assert(t.take(2) =~= t);
        }
    }
    if payload.len() == 32 {
        let (b, rest) = read_bytes(payload, 32, "lookup identity"@);
        assert(b->Ok_0 + rest == payload);
        assert(rest.len() == 0);
        assert(b->Ok_0 =~= payload);
    } else if payload.len() > 32 {
        let (b, rest) = read_bytes(payload, 32, "lookup identity"@);
        assert((b->Ok_0 + rest).len() == payload.len());
    }
}

/// A publish is read when its payload is a signed record, and as that record.
pub proof fn how_a_publish_is_read(payload: Seq<u8>)
    ensures
        request_decoded(2, payload) is Ok <==> read_signed(payload).0 is Ok && read_signed(
            payload,
        ).1.len() == 0,
        request_decoded(2, payload) matches Ok(r) ==> (r matches RequestModel::Publish { record }
            && read_signed(payload).0 == Ok::<SignedModel, ErrorModel>(record)),
{
}

/// An error from a server is passed on with its number and its message.
pub proof fn what_a_server_error_says(code: ErrorCode, message: Seq<char>)
    ensures
        server_error(ResponseModel::Error { code, message }) matches ErrorModel::Server {
            code: number,
            message: text,
        } && number == code_number(code) && text == message,
{
}

// ---------------------------------------------------------------------------
// Files
// ---------------------------------------------------------------------------

/// A delegation file is the letters `SQNSDEL`, the version 2, the service key
/// and the delegation: its identity, its date and its signature.
pub proof fn where_the_parts_of_a_delegation_file_stand(f: DelegationFileModel)
    requires
        f.service_key.len() == 32,
        f.delegation.identity.len() == 32,
        f.delegation.signature.len() == 64,
    ensures
        ({
            let b = delegation_file_bytes(f);
            &&& b.len() == 144
            &&& b.take(7) == seq![83u8, 81u8, 78u8, 83u8, 68u8, 69u8, 76u8]
            &&& b[7] == 2
            &&& b.subrange(8, 40) == f.service_key
            &&& b.subrange(40, 72) == f.delegation.identity
            &&& number_in(b.subrange(72, 80)) == f.delegation.not_after
            &&& b.subrange(80, 144) == f.delegation.signature
        }),
{
    let b = delegation_file_bytes(f);
    numbers_are_written_highest_byte_first(0, 0, f.delegation.not_after);
    assert(b.take(7) =~= seq![83u8, 81u8, 78u8, 83u8, 68u8, 69u8, 76u8]);
    assert(b.subrange(8, 40) =~= f.service_key);
    assert(b.subrange(40, 72) =~= f.delegation.identity);
    assert(b.subrange(72, 80) =~= be64(f.delegation.not_after));
    assert(b.subrange(80, 144) =~= f.delegation.signature);
}

/// A snapshot is the letters `SQNSDB`, the version 3, how many records there
/// are and the records, how many bindings there are and the bindings: the key
/// and its identity for each.
pub proof fn where_the_parts_of_a_snapshot_stand(
    rs: Seq<SignedModel>,
    bs: Seq<(Seq<u8>, Seq<u8>)>,
)
    requires
        rs.len() < 0x1_0000_0000,
        bs.len() < 0x1_0000_0000,
    ensures
        ({
            let b = snapshot_bytes(rs, bs);
            let n = records_bytes(rs).len() as int;
            &&& b.take(6) == seq![83u8, 81u8, 78u8, 83u8, 68u8, 66u8]
            &&& b[6] == 3
            &&& number_in(b.subrange(7, 11)) == rs.len()
            &&& b.subrange(11, 11 + n) == records_bytes(rs)
            &&& number_in(b.subrange(11 + n, 15 + n)) == bs.len()
            &&& b.skip(15 + n) == bindings_bytes(bs)
        }),
{
    let b = snapshot_bytes(rs, bs);
    let n = records_bytes(rs).len() as int;
    numbers_are_written_highest_byte_first(0, rs.len() as u32, 0);
    numbers_are_written_highest_byte_first(0, bs.len() as u32, 0);
    assert(b.take(6) =~= seq![83u8, 81u8, 78u8, 83u8, 68u8, 66u8]);
    assert(b.subrange(7, 11) =~= be32(rs.len() as u32));
    assert(b.subrange(11, 11 + n) =~= records_bytes(rs));
    assert(b.subrange(11 + n, 15 + n) =~= be32(bs.len() as u32));
    assert(b.skip(15 + n) =~= bindings_bytes(bs));
}

/// Records and bindings follow one another.
pub proof fn records_and_bindings_follow_one_another(
    rs: Seq<SignedModel>,
    s: SignedModel,
    bs: Seq<(Seq<u8>, Seq<u8>)>,
    key: Seq<u8>,
    identity: Seq<u8>,
)
    ensures
        records_bytes(rs.push(s)) == records_bytes(rs) + signed_bytes(s),
        bindings_bytes(bs.push((key, identity))) == bindings_bytes(bs) + key + identity,
        records_bytes(seq![]).len() == 0,
        bindings_bytes(seq![]).len() == 0,
{
    assert(rs.push(s).drop_last() =~= rs);
    assert(bs.push((key, identity)).drop_last() =~= bs);
    assert(bindings_bytes(bs) + (key + identity) =~= bindings_bytes(bs) + key + identity);
}

/// What can be sent and saved: a signed record whose record is at most 65535
/// bytes long, a batch of at most 512 of them, and texts of at most 65535
/// bytes.
pub proof fn what_fits(s: SignedModel, v: Seq<SignedModel>, r: ResponseModel)
    ensures
        record_fits(s.record) && record_bytes(s.record).len() <= 65535 && s.signature.len() == 64
            <==> signed_fits(s),
        records_fit(v) <==> forall|i: int| 0 <= i < v.len() ==> signed_fits(#[trigger] v[i]),
        response_fits(r) <==> match r {
            ResponseModel::Answer { record, successor } => (record matches Some(a) ==> signed_fits(
                a,
            )) && (successor matches Some(b) ==> signed_fits(b)),
            ResponseModel::Published { .. } => true,
            ResponseModel::Status(info) => encode_utf8(info.version).len() <= 65535,
            ResponseModel::Records { records, .. } => records.len() <= 512 && records_fit(records),
            ResponseModel::Error { message, .. } => encode_utf8(message).len() <= 65535,
        },
{
}

/// A confirmation is read from sixteen bytes: the serial and the second of
/// expiry.
pub proof fn how_a_confirmation_is_read(payload: Seq<u8>)
    ensures
        response_decoded(0x82, payload) is Ok <==> payload.len() == 16,
        response_decoded(0x82, payload) matches Ok(r) ==> (r matches ResponseModel::Published {
            serial,
            expires_at,
        } && serial == number_in(payload.take(8)) && expires_at == number_in(payload.skip(8))),
{
    reveal(read_response);
    numbers_are_read_from_the_front(payload, "published serial"@);
    if payload.len() >= 8 {
        let t = payload.skip(8);
        numbers_are_read_from_the_front(t, "published expires_at"@);
        assert(t.len() >= 8 ==> t.skip(8).len() == payload.len() - 16);
        if payload.len() == 16 {
            assert(t.take(8) =~= t);
        }
    }
}

/// A refusal is read as its code, a number that is no code's as an internal
/// error.
pub proof fn how_a_refusal_is_read(payload: Seq<u8>)
    ensures
        response_decoded(0xff, payload) matches Ok(r) ==> payload.len() >= 2 && (
        r matches ResponseModel::Error { code, .. } && code == code_of(
            number_in(payload.take(2)) as u16,
        )),
        response_decoded(0xff, payload) is Ok ==> number_in(payload.take(2)) <= 65535,
{
    reveal(read_response);
    numbers_are_read_from_the_front(payload, "error code"@);
}

/// A type that is no response's is refused, and so is a batch that announces
/// more than 512 records.
pub proof fn which_responses_are_refused(frame_type: u8, payload: Seq<u8>)
    ensures
        !(0x81 <= frame_type <= 0x84) && frame_type != 0xff ==> response_decoded(
            frame_type,
            payload,
        ) is Err,
        payload.len() >= 4 && number_in(payload.take(4)) > 512 ==> response_decoded(
            0x84,
            payload,
        ) is Err,
{
    reveal(read_response);
    reveal(read_batch);
    numbers_are_read_from_the_front(payload, "sync count"@);
}

/// In an answer each record is announced by a byte that is 0 or 1, and nothing
/// else.
pub proof fn how_a_record_is_announced(payload: Seq<u8>, what: Seq<char>)
    ensures
        payload.len() == 0 ==> read_optional(payload, what).0 is Err,
        payload.len() > 0 && payload[0] == 0 ==> read_optional(payload, what) == (Ok::<
            Option<SignedModel>,
            ErrorModel,
        >(None), payload.skip(1)),
        payload.len() > 0 && payload[0] == 1 ==> (read_optional(payload, what).0 is Ok
            <==> read_signed(payload.skip(1)).0 is Ok),
        payload.len() > 0 && payload[0] == 1 ==> (read_optional(payload, what).0 matches Ok(o)
            ==> o == Some(read_signed(payload.skip(1)).0->Ok_0)),
        payload.len() > 0 && payload[0] > 1 ==> read_optional(payload, what).0 is Err,
{
    reveal(read_optional);
    numbers_are_read_from_the_front(payload, what + " presence"@);
}

/// A delegation file is taken when it is laid out as it must be, to the last
/// byte, and the identity in it really signed for the key and the date in it;
/// and then it says what stands in it.
pub proof fn which_delegation_files_are_taken(b: Seq<u8>)
    ensures
        delegation_file_decoded(b) is Ok <==> {
            &&& b.len() == 144
            &&& b.take(7) == seq![83u8, 81u8, 78u8, 83u8, 68u8, 69u8, 76u8]
            &&& b[7] == 2
            &&& is_curve_point(b.subrange(40, 72))
            &&& ed25519_verifies(
                b.subrange(40, 72),
                delegation_message(
                    b.subrange(40, 72),
                    b.subrange(8, 40),
                    from_be64(b.subrange(72, 80)),
                ),
                b.subrange(80, 144),
            )
        },
        delegation_file_decoded(b) matches Ok(f) ==> f.service_key == b.subrange(8, 40)
            && f.delegation.identity == b.subrange(40, 72) && f.delegation.not_after == number_in(
            b.subrange(72, 80),
        ) && f.delegation.signature == b.subrange(80, 144),
{
    reveal(read_bytes);
    reveal(read_u8);
    reveal(read_u64);
    if b.len() >= 8 {
        let t = b.subrange(7, b.len() as int);
        assert(b.subrange(0, 7) =~= b.take(7));
        assert(t.subrange(0, 1)[0] == b[7]);
        let u = t.subrange(1, t.len() as int);
        assert(u =~= b.subrange(8, b.len() as int));
        if u.len() >= 32 {
            assert(u.subrange(0, 32) =~= b.subrange(8, 40));
            let v = u.subrange(32, u.len() as int);
            assert(v =~= b.subrange(40, b.len() as int));
            if v.len() >= 32 {
                assert(v.subrange(0, 32) =~= b.subrange(40, 72));
                let w = v.subrange(32, v.len() as int);
                assert(w =~= b.subrange(72, b.len() as int));
                if w.len() >= 8 {
                    assert(w.subrange(0, 8) =~= b.subrange(72, 80));
                    numbers_are_read_highest_byte_first(
                        b.subrange(72, 74),
                        b.subrange(72, 76),
                        b.subrange(72, 80),
                    );
                    let x = w.subrange(8, w.len() as int);
                    assert(x =~= b.subrange(80, b.len() as int));
                    if x.len() >= 64 {
                        assert(x.subrange(0, 64) =~= b.subrange(80, 144));
                        assert(x.subrange(64, x.len() as int).len() == b.len() - 144);
                    }
                }
            }
        }
    }
}

/// A snapshot that does not begin as one of this version is not read.
pub proof fn which_snapshots_are_read(b: Seq<u8>)
    ensures
        snapshot_decoded(b) is Ok ==> b.len() >= 7 && b.take(6) == seq![
            83u8,
            81u8,
            78u8,
            83u8,
            68u8,
            66u8,
        ] && b[6] == 3,
{
    reveal(read_snapshot);
    reveal(read_bytes);
    reveal(read_u8);
    if b.len() >= 6 {
        let t = b.subrange(6, b.len() as int);
        assert(b.subrange(0, 6) =~= b.take(6));
        if t.len() >= 1 {
            assert(t.subrange(0, 1)[0] == b[6]);
        }
    }
}

/// No two error codes go by the same name or the same number.
pub proof fn error_codes_are_told_apart(c: ErrorCode, d: ErrorCode)
    requires
        c != d,
    ensures
        code_name(c) != code_name(d),
        code_number(c) != code_number(d),
{
    reveal_strlit("Malformed");
    reveal_strlit("Unsupported");
    reveal_strlit("BadSignature");
    reveal_strlit("Stale");
    reveal_strlit("RateLimited");
    reveal_strlit("Internal");
    reveal_strlit("NotAuthorized");
    reveal_strlit("Revoked");
    reveal_strlit("BadDelegation");
    reveal_strlit("Superseded");
    reveal_strlit("UpstreamFailed");
    assert(code_name(c) == code_name(d) ==> code_name(c).len() == code_name(d).len());
    assert(code_name(c) == code_name(d) ==> code_name(c)[0] == code_name(d)[0]);
    assert(code_name(c) == code_name(d) ==> code_name(c)[4] == code_name(d)[4]);
}

} // verus!
