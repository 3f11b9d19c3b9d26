//! Bytes on the wire and on disk.

use sqns::codec::{put_short_string, put_string, put_u16, put_u32, put_u64, put_u8, Reader};
use sqns::error::Error;
use sqns::key::{generate, public_of, PubKey};
use sqns::protocol::{
    decode_header, encode_frame, ErrorCode, Request, Response, StatusInfo, MAX_MESSAGE_LEN,
    MAX_RECURSE,
};
use sqns::record::{
    now_unix, Delegation, Endpoint, Host, Record, RecordBody, SignedRecord,
};
use sqns::server::{malformed_reply, Action, Server, SnapshotClock};
use sqns::snapshot::decode_snapshot;
use sqns::store::Store;
use sqns::upstream::Upstream;

#[test]
fn numbers_are_big_endian() {
    let mut buf = Vec::new();
    put_u8(&mut buf, 1);
    put_u16(&mut buf, 0x0203);
    put_u32(&mut buf, 0x0405_0607);
    put_u64(&mut buf, 0x0809_0a0b_0c0d_0e0f);
    put_short_string(&mut buf, "ab");
    put_string(&mut buf, "é");
    let want: Vec<u8> = (1..=15).chain([2, b'a', b'b', 0, 2, 0xc3, 0xa9]).collect();
    assert_eq!(buf, want);

    let mut r = Reader::new(&buf);
    assert_eq!(r.remaining(), 22);
    assert_eq!(r.u8("a").unwrap(), 1);
    assert_eq!(r.u16("a").unwrap(), 0x0203);
    assert_eq!(r.u32("a").unwrap(), 0x0405_0607);
    assert_eq!(r.u64("a").unwrap(), 0x0809_0a0b_0c0d_0e0f);
    assert_eq!(r.short_string("a").unwrap(), "ab");
    assert_eq!(
        r.finish("thing").unwrap_err(),
        Error::Record("thing: 4 trailing bytes".to_string())
    );
    assert_eq!(r.string("a").unwrap(), "é");
    assert!(r.is_empty() && r.finish("thing").is_ok());
    assert!(matches!(r.u8("byte"), Err(Error::Record(_))));
}

#[test]
fn a_length_wraps_in_its_field() {
    let mut buf = Vec::new();
    put_short_string(&mut buf, &"x".repeat(300));
    assert_eq!(buf.len(), 301);
    assert_eq!(buf[0], 44);
}

#[test]
fn text_must_be_utf8() {
    let mut r = Reader::new(&[2, 0xc3, 0x28]);
    assert_eq!(
        r.short_string("name").unwrap_err().to_string(),
        "malformed record: name is not valid UTF-8: invalid utf-8 sequence of 1 bytes from index 0"
    );
    let mut r = Reader::new(&[1, 2, 3]);
    assert_eq!(r.bytes(2, "a").unwrap(), &[1, 2]);
    assert!(r.array::<2>("b").is_err());
    assert_eq!(r.array::<1>("b").unwrap(), [3]);
}

#[test]
fn frames_carry_type_and_length() {
    let frame = encode_frame(0x81, &[9, 8, 7]).unwrap();
    assert_eq!(frame, vec![0x81, 0, 0, 0, 3, 9, 8, 7]);
    assert_eq!(decode_header(&[0x81, 0, 0, 0, 3]).unwrap(), (0x81, 3));
    let most = vec![0; MAX_MESSAGE_LEN as usize];
    assert!(encode_frame(1, &most).is_ok());
    let more = vec![0; MAX_MESSAGE_LEN as usize + 1];
    assert!(matches!(encode_frame(1, &more), Err(Error::Protocol(_))));
    assert!(decode_header(&[1, 0, 0x10, 0, 0]).is_ok());
    assert!(matches!(decode_header(&[1, 0, 0x10, 0, 1]), Err(Error::Protocol(_))));
}

#[test]
fn error_codes_have_numbers_and_names() {
    for (code, n, name) in [
        (ErrorCode::Malformed, 1, "Malformed"),
        (ErrorCode::Internal, 6, "Internal"),
        (ErrorCode::Superseded, 10, "Superseded"),
        (ErrorCode::UpstreamFailed, 11, "UpstreamFailed"),
    ] {
        assert_eq!(code.to_u16(), n);
        assert_eq!(ErrorCode::from_u16(n), code);
        assert_eq!(code.name(), name);
    }
    assert_eq!(ErrorCode::from_u16(999), ErrorCode::Internal);
    let e = Response::error(ErrorCode::Stale, "gone").into_server_error();
    assert_eq!(e, Error::Server { code: 4, message: "gone".to_string() });
}

#[test]
fn a_response_is_shown_in_full() {
    let none = Response::Answer { record: None, successor: None };
    assert_eq!(none.shown(), "Answer { record: None, successor: None }");
    assert_eq!(
        Response::error(ErrorCode::Stale, "say \"no\"\n").shown(),
        "Error { code: Stale, message: \"say \\\"no\\\"\\n\" }"
    );
    let info = StatusInfo {
        records: 1,
        cached: 2,
        peers: 3,
        upstreams: 4,
        uptime_secs: 5,
        version: "0.1.0".to_string(),
    };
    let status = "StatusInfo { records: 1, cached: 2, peers: 3, upstreams: 4, uptime_secs: 5, \
                  version: \"0.1.0\" }";
    assert_eq!(Response::Status(info).shown(), format!("Status({status})"));
    assert_eq!(
        Response::Records { records: Vec::new(), complete: true }.shown(),
        "Records { records: [], complete: true }"
    );

    let (key, identity) = (PubKey::new([1; 32]), PubKey::new([2; 32]));
    let key_text = format!("PubKey({:?})", [1u8; 32]);
    let identity_text = format!("PubKey({:?})", [2u8; 32]);
    let delegation = Delegation { identity, not_after: 9, signature: [3; 64] };
    let delegation_text = format!(
        "Delegation {{ identity: {identity_text}, not_after: 9, signature: {:?} }}",
        [3u8; 64]
    );
    let shown = |body: RecordBody| {
        let record =
            Record { key, delegation: delegation.clone(), serial: 4, issued_at: 5, ttl: 6, body };
        let signed = SignedRecord { record, signature: [7; 64] };
        Response::Records { records: vec![signed], complete: false }.shown()
    };
    let expected = |body: &str| {
        format!(
            "Records {{ records: [SignedRecord {{ record: Record {{ key: {key_text}, delegation: \
             {delegation_text}, serial: 4, issued_at: 5, ttl: 6, body: {body} }}, signature: \
             {:?} }}], complete: false }}",
            [7u8; 64]
        )
    };
    let endpoints = vec![
        Endpoint::new(Host::V4([127, 0, 0, 1]), 1).with_priority(2).with_weight(3),
        Endpoint::new(Host::from_str("2001:db8::5").unwrap(), 4),
        Endpoint::new(Host::Name("h".to_string()), 5),
    ];
    assert_eq!(
        shown(RecordBody::Live { endpoints }),
        expected(
            "Live { endpoints: [Endpoint { host: V4(127.0.0.1), port: 1, priority: 2, weight: 3 }, \
             Endpoint { host: V6(2001:db8::5), port: 4, priority: 0, weight: 1 }, \
             Endpoint { host: Name(\"h\"), port: 5, priority: 0, weight: 1 }] }"
        )
    );
    assert_eq!(
        shown(RecordBody::Superseded { successor: identity, reason: "old".to_string() }),
        expected(&format!(
            "Superseded {{ successor: {identity_text}, reason: \"old\" }}"
        ))
    );
    assert_eq!(
        shown(RecordBody::Revoked { reason: String::new() }),
        expected("Revoked { reason: \"\" }")
    );
}

#[test]
fn a_lookup_budget_is_clamped() {
    let key = public_of(&generate());
    let mut payload = key.to_bytes().to_vec();
    payload.push(200);
    match Request::decode(0x01, &payload).unwrap() {
        Request::Lookup { key: k, recurse } => {
            assert!(k == key);
            assert_eq!(recurse, MAX_RECURSE);
        },
        other => panic!("{other:?}"),
    }
    assert!(matches!(Request::decode(0x7f, &payload), Err(Error::Protocol(_))));
    payload.push(0);
    assert!(Request::decode(0x01, &payload).is_err(), "one byte too many");
}

#[test]
fn a_snapshot_is_read_back_and_nothing_else_is() {
    let (identity, sk) = (generate(), generate());
    let now = now_unix();
    let d = Delegation::issue(&identity, &public_of(&sk), now + 86_400);
    let record = Record::live(public_of(&sk), d, 1, 300, Vec::new()).sign(&sk).unwrap();
    let mut store = Store::new(None);
    store.put(record.clone()).unwrap();

    let bytes = store.snapshot();
    let read = decode_snapshot(&bytes).ok().unwrap();
    assert_eq!(read.records.len(), 1);
    for n in 0..bytes.len() {
        assert!(decode_snapshot(&bytes[..n]).is_err(), "cut at {n}");
    }
    let again = Store::open(None, Some(&bytes));
    assert_eq!(again.get(&record.key()), Some(record));
}

#[test]
fn a_snapshot_is_written_when_something_changed() {
    let (identity, sk) = (generate(), generate());
    let d = Delegation::issue(&identity, &public_of(&sk), now_unix() + 86_400);
    let record = Record::live(public_of(&sk), d, 1, 300, Vec::new()).sign(&sk).unwrap();
    let mut clock = SnapshotClock::new();
    assert!(!clock.due(&Store::new(None)), "nowhere to write to");
    let mut store = Store::new(Some("records.db".into()));
    assert!(clock.due(&store), "not written yet");
    clock.written(store.revision());
    assert!(!clock.due(&store));
    store.put(record).unwrap();
    assert!(clock.due(&store));
    clock.written(store.revision());
    assert!(!clock.due(&store));
}

#[test]
fn a_server_answers_without_a_network() {
    let mut server = Server::new(Store::new(None), Upstream::new(Vec::new(), true, 4), 3, false);
    let now = now_unix();
    match server.handle(Request::Status, 12, now) {
        Action::Reply(Response::Status(info)) => {
            assert_eq!((info.peers, info.uptime_secs, info.records), (3, 12, 0));
        },
        _ => panic!("status is answered at once"),
    }
    match server.handle(Request::Sync { since: 0, limit: 10 }, 0, now) {
        Action::Reply(Response::Error { code, message }) => {
            assert_eq!(code.to_u16(), 7);
            assert_eq!(message, "this server does not answer sync requests");
        },
        _ => panic!("sync is refused"),
    }
    let key = public_of(&generate());
    match server.handle(Request::Lookup { key, recurse: 4 }, 0, now) {
        Action::Reply(Response::Answer { record: None, successor: None }) => {},
        _ => panic!("with no upstreams a miss is a miss"),
    }
    match malformed_reply(&Error::Protocol("short".to_string())) {
        Response::Error { code, message } => {
            assert_eq!(code, ErrorCode::Malformed);
            assert_eq!(message, "protocol error: short");
        },
        other => panic!("{other:?}"),
    }
}
