//! Checks on relayed answers.

use sqns::addr::ServerAddr;
use sqns::key::{self, SigningKey};
use sqns::protocol::{ErrorCode, Response};
use sqns::record::{now_unix, Delegation, Endpoint, Host, Record, RecordBody, SignedRecord};
use sqns::store::Store;
use sqns::upstream::{LinkReply, Upstream};
use sqns::Error;

fn service_record(identity: &SigningKey, service: &SigningKey) -> SignedRecord {
    let delegation = Delegation::issue(identity, &key::public_of(service), now_unix() + 86_400);
    Record::live(
        key::public_of(service),
        delegation,
        1,
        300,
        vec![Endpoint::new(Host::V4([127, 0, 0, 1]), 5300)],
    )
    .sign(service)
    .unwrap()
}

#[test]
fn an_answer_for_the_wrong_key_is_refused() {
    let store = Store::new(None);
    let record = service_record(&key::generate(), &key::generate());
    let someone_else = key::public_of(&key::generate());

    assert!(Upstream::accept(&store, &record.key(), &record, now_unix()).is_ok());
    assert!(
        Upstream::accept(&store, &someone_else, &record, now_unix()).is_err(),
        "a server must not relay an answer to a question nobody asked"
    );
}

/// The one check a relaying server can make that its clients cannot: it knows
/// which identity this key was first bound to here.
#[test]
fn an_answer_contradicting_a_local_binding_is_refused() {
    let mut store = Store::new(None);
    let identity = key::generate();
    let service = key::generate();
    store.put(service_record(&identity, &service)).unwrap();
    let key = key::public_of(&service);

    // The same service key, re-issued by somebody else's identity.
    let reissued = service_record(&key::generate(), &service);
    let err = Upstream::accept(&store, &key, &reissued, now_unix()).unwrap_err();
    assert!(matches!(err, Error::Delegation(_)), "{}", err.to_string());

    // The genuine one still passes.
    let genuine = service_record(&identity, &service);
    assert!(Upstream::accept(&store, &key, &genuine, now_unix()).is_ok());
}

#[test]
fn a_tampered_answer_is_refused() {
    let store = Store::new(None);
    let mut record = service_record(&key::generate(), &key::generate());
    if let RecordBody::Live { endpoints } = &mut record.record.body {
        endpoints[0].port = 31337;
    }
    assert!(Upstream::accept(&store, &record.key(), &record, now_unix()).is_err());
}

#[test]
fn with_no_upstreams_every_lookup_is_a_clean_miss() {
    let mut up = Upstream::new(Vec::new(), true, 4);
    let key = key::public_of(&key::generate());
    let now = now_unix();
    assert!(up.recall(&key, now).is_none());
    let q = up.query(&key, 4);
    assert!(!q.pending(&up));
    assert!(up.finish(q, now).is_ok());
    assert_eq!(up.cached(), 1, "a definite miss is worth remembering");
    assert!(matches!(up.recall(&key, now), Some(None)));
}

#[test]
fn every_failure_is_told() {
    let store = Store::new(None);
    let now = now_unix();
    let key = key::public_of(&key::generate());
    let addrs: Vec<ServerAddr> = (1..5)
        .map(|i| ServerAddr::new(&format!("10.0.0.{i}"), 5300, key::public_of(&key::generate())))
        .collect();
    let text: Vec<String> = addrs.iter().map(|a| a.to_string()).collect();
    let mut up = Upstream::new(addrs, true, 4);
    let mut q = up.query(&key, 1);
    for reply in [
        LinkReply::Failed(Error::Connection("refused".to_string())),
        LinkReply::TimedOut,
        LinkReply::Response(Response::error(ErrorCode::Internal, "oops")),
        LinkReply::Response(Response::Published { serial: 1, expires_at: 2 }),
    ] {
        assert!(q.pending(&up));
        assert!(up.take_reply(&mut q, &store, reply, now).is_none());
    }
    assert!(!q.pending(&up));
    assert_eq!(
        up.finish(q, now).unwrap_err(),
        Error::Server {
            code: 11,
            message: format!(
                "no upstream could answer ({}: connection error: refused; {}: timed out; \
                 {}: Internal: oops; {}: unexpected Published {{ serial: 1, expires_at: 2 }})",
                text[0], text[1], text[2], text[3]
            ),
        }
    );
}

#[test]
fn a_refused_answer_still_counts_as_one() {
    let store = Store::new(None);
    let now = now_unix();
    let key = key::public_of(&key::generate());
    let addr = ServerAddr::new("10.0.0.1", 5300, key);
    let mut up = Upstream::new(vec![addr], true, 4);
    let mut q = up.query(&key, 1);
    let wrong = service_record(&key::generate(), &key::generate());
    let reply = Response::Answer { record: Some(Box::new(wrong)), successor: None };
    assert!(up.take_reply(&mut q, &store, LinkReply::Response(reply), now).is_none());
    assert!(up.finish(q, now).is_ok());
}

#[test]
fn a_forwarding_answer_is_relayed_with_its_successor() {
    let store = Store::new(None);
    let now = now_unix();
    let identity = key::generate();
    let (old, new) = (key::generate(), key::generate());
    let (old_key, new_key) = (key::public_of(&old), key::public_of(&new));
    let d = Delegation::issue(&identity, &old_key, now + 86_400);
    let tomb = Record::superseded(old_key, d, 2, new_key, "rotated").sign(&identity).unwrap();
    let live = service_record(&identity, &new);

    let addr = ServerAddr::new("10.0.0.1", 5300, old_key);
    let mut up = Upstream::new(vec![addr], true, 4);
    let mut q = up.query(&old_key, 1);
    let reply = Response::Answer {
        record: Some(Box::new(tomb.clone())),
        successor: Some(Box::new(live.clone())),
    };
    let relayed = up.take_reply(&mut q, &store, LinkReply::Response(reply), now).unwrap();
    assert_eq!(relayed.record, tomb);
    assert_eq!(relayed.successor, Some(live.clone()));
    assert_eq!(up.cached(), 2);
    let again = up.recall(&old_key, now).unwrap().unwrap();
    assert_eq!(again.successor, Some(live));

    // A successor that is not the one named does not travel.
    let mut q = up.query(&old_key, 1);
    let reply = Response::Answer {
        record: Some(Box::new(tomb)),
        successor: Some(Box::new(service_record(&identity, &key::generate()))),
    };
    let relayed = up.take_reply(&mut q, &store, LinkReply::Response(reply), now).unwrap();
    assert_eq!(relayed.successor, None);
}
