//! Store behaviour: what it accepts, what it refuses, what survives a restart.

use std::path::PathBuf;

use sqns::key::{self, PubKey, SigningKey};
use sqns::record::{now_unix, Delegation, Endpoint, Host, Record, RecordBody, SignedRecord};
use sqns::store::{PutOutcome, Store};
use sqns::Error;

/// A service key, the identity that issued it, and the delegation binding them:
/// the smallest unit that can publish anything.
struct Service {
    identity: SigningKey,
    key: SigningKey,
    delegation: Delegation,
}

impl Service {
    /// A service under a fresh identity of its own.
    fn new() -> Self {
        Self::under(key::generate())
    }

    /// A service under an existing identity, for testing siblings.
    fn under(identity: SigningKey) -> Self {
        let service = key::generate();
        let delegation =
            Delegation::issue(&identity, &key::public_of(&service), now_unix() + 86_400);
        Self { identity, key: service, delegation }
    }

    fn pubkey(&self) -> PubKey {
        key::public_of(&self.key)
    }

    fn identity_pubkey(&self) -> PubKey {
        key::public_of(&self.identity)
    }

    /// A live record, signed by the service key as the node would.
    fn live(&self, serial: u64, port: u16) -> SignedRecord {
        self.live_with(serial, vec![Endpoint::new(Host::V4([127, 0, 0, 1]), port)])
    }

    fn live_with(&self, serial: u64, endpoints: Vec<Endpoint>) -> SignedRecord {
        Record::live(self.pubkey(), self.delegation.clone(), serial, 300, endpoints)
            .sign(&self.key)
            .expect("the service key signs its own live records")
    }

    /// A revocation, signed by the identity as only it can be.
    fn revoked(&self, serial: u64, reason: &str) -> SignedRecord {
        Record::revoked(self.pubkey(), self.delegation.clone(), serial, reason)
            .sign(&self.identity)
            .expect("the identity signs retirements")
    }

    fn superseded(&self, serial: u64, successor: PubKey) -> SignedRecord {
        Record::superseded(
            self.pubkey(),
            self.delegation.clone(),
            serial,
            successor,
            "rotated",
        )
        .sign(&self.identity)
        .expect("the identity signs retirements")
    }
}

/// Alter an endpoint after signing, the way an attacker on the wire would.
fn tamper_port(signed: &mut SignedRecord, port: u16) {
    match &mut signed.record.body {
        RecordBody::Live { endpoints } => endpoints[0].port = port,
        _ => panic!("no endpoints to tamper with"),
    }
}

#[test]
fn a_record_can_be_stored_and_read_back() {
    let mut store = Store::new(None);
    let svc = Service::new();
    let record = svc.live(1, 5300);

    assert_eq!(store.put(record.clone()).unwrap(), PutOutcome::Stored);
    assert_eq!(store.get(&svc.pubkey()).expect("held"), record);
    assert_eq!(store.len(), 1);
}

#[test]
fn a_newer_serial_replaces_an_older_one() {
    let mut store = Store::new(None);
    let svc = Service::new();
    store.put(svc.live(1, 5300)).unwrap();

    assert_eq!(store.put(svc.live(2, 6000)).unwrap(), PutOutcome::Stored);
    let held = store.get(&svc.pubkey()).unwrap();
    assert_eq!(held.record.serial, 2);
    assert_eq!(held.record.endpoints()[0].port, 6000);
}

#[test]
fn an_older_serial_is_refused() {
    let mut store = Store::new(None);
    let svc = Service::new();
    store.put(svc.live(9, 5300)).unwrap();

    assert_eq!(store.put(svc.live(8, 6000)).unwrap(), PutOutcome::Stale);
    assert_eq!(store.get(&svc.pubkey()).unwrap().record.serial, 9);
}

#[test]
fn a_forged_record_is_refused() {
    let mut store = Store::new(None);
    let svc = Service::new();
    let mut record = svc.live(1, 5300);
    tamper_port(&mut record, 31337);

    let err = store.put(record).unwrap_err();
    assert!(matches!(err, Error::Signature(_)), "{}", err.to_string());
    assert_eq!(store.len(), 0);
}

#[test]
fn a_record_from_the_future_is_refused() {
    let mut store = Store::new(None);
    let svc = Service::new();
    let mut record = Record::live(
        svc.pubkey(),
        svc.delegation.clone(),
        1,
        300,
        vec![Endpoint::new(Host::V4([127, 0, 0, 1]), 5300)],
    );
    record.issued_at = now_unix() + 3600;

    let err = store.put(record.sign(&svc.key).unwrap()).unwrap_err();
    assert!(err.to_string().contains("future"), "{}", err.to_string());
}

#[test]
fn an_already_expired_record_is_refused() {
    let mut store = Store::new(None);
    let svc = Service::new();
    let mut record = Record::live(
        svc.pubkey(),
        svc.delegation.clone(),
        1,
        60,
        vec![Endpoint::new(Host::V4([127, 0, 0, 1]), 5300)],
    );
    record.issued_at = now_unix() - 120;

    assert!(store.put(record.sign(&svc.key).unwrap()).is_err());
    assert_eq!(store.len(), 0);
}

#[test]
fn an_expired_delegation_cannot_publish() {
    let mut store = Store::new(None);
    let identity = key::generate();
    let service = key::generate();
    let lapsed = Delegation::issue(&identity, &key::public_of(&service), now_unix() - 60);

    let record = Record::live(
        key::public_of(&service),
        lapsed,
        1,
        300,
        vec![Endpoint::new(Host::V4([127, 0, 0, 1]), 5300)],
    )
    .sign(&service)
    .unwrap();

    let err = store.put(record).unwrap_err();
    assert!(matches!(err, Error::Delegation(_)), "{}", err.to_string());
}

#[test]
fn sync_returns_records_from_a_watermark() {
    let mut store = Store::new(None);
    let services: Vec<Service> = (0..5).map(|_| Service::new()).collect();
    for (i, svc) in services.iter().enumerate() {
        store.put(svc.live(1, 5300 + i as u16)).unwrap();
    }

    let (all, complete) = store.since(0, 100);
    assert_eq!(all.len(), 5);
    assert!(complete);

    let (batch, complete) = store.since(0, 3);
    assert_eq!(batch.len(), 3);
    assert!(!complete, "a full batch reports there may be more");

    // Oldest first, so a watermark walk makes progress.
    let issued: Vec<u64> = all.iter().map(|r| r.record.issued_at).collect();
    assert!(issued.windows(2).all(|w| w[0] <= w[1]));

    let (none, _) = store.since(now_unix() + 60, 100);
    assert!(none.is_empty());
}

#[test]
fn the_revision_counter_tracks_changes() {
    let mut store = Store::new(None);
    let svc = Service::new();
    // One record: built twice, the second could be issued a second later.
    let record = svc.live(1, 5300);
    let before = store.revision();

    store.put(record.clone()).unwrap();
    let after = store.revision();
    assert!(after > before);

    store.put(record).ok();
    assert_eq!(store.revision(), after, "a stale put changes nothing");
}

// -- Identities, retirement and bindings --

#[test]
fn one_identity_can_hold_many_service_keys() {
    let mut store = Store::new(None);
    let identity = key::generate();
    let services: Vec<Service> = (0..3).map(|_| Service::under(identity.clone())).collect();

    for (i, svc) in services.iter().enumerate() {
        store.put(svc.live(1, 5300 + i as u16)).unwrap();
    }

    // Each key resolves on its own, and all three answer to the identity.
    assert_eq!(store.len(), 3);
    for svc in &services {
        assert!(store.get(&svc.pubkey()).is_some());
        assert_eq!(store.identity_of(&svc.pubkey()), Some(svc.identity_pubkey()));
    }
    assert_eq!(store.identity_records(&key::public_of(&identity), 100).len(), 3);
}

#[test]
fn revoking_one_service_key_leaves_its_siblings_alone() {
    let mut store = Store::new(None);
    let identity = key::generate();
    let doomed = Service::under(identity.clone());
    let survivor = Service::under(identity);
    store.put(doomed.live(1, 5300)).unwrap();
    store.put(survivor.live(1, 5301)).unwrap();

    store.put(doomed.revoked(2, "stolen")).unwrap();

    assert!(store.get(&doomed.pubkey()).unwrap().record.is_revoked());
    assert!(store.put(doomed.live(u64::MAX, 6000)).is_err());

    // The sibling is untouched and still publishing.
    assert_eq!(store.put(survivor.live(2, 5302)).unwrap(), PutOutcome::Stored);
}

#[test]
fn superseding_a_key_retires_it_and_points_onward() {
    let mut store = Store::new(None);
    let identity = key::generate();
    let old = Service::under(identity.clone());
    let new = Service::under(identity);
    store.put(old.live(1, 5300)).unwrap();

    store.put(old.superseded(2, new.pubkey())).unwrap();
    assert_eq!(store.get(&old.pubkey()).unwrap().record.successor(), Some(new.pubkey()));

    // The thief still holding the old key cannot publish over its retirement.
    let err = store.put(old.live(u64::MAX, 31337)).unwrap_err();
    assert!(matches!(err, Error::Superseded { .. }), "{}", err.to_string());

    // And the replacement publishes normally.
    store.put(new.live(1, 5301)).unwrap();
    assert!(store.get(&new.pubkey()).is_some());
}

#[test]
fn a_stranger_identity_cannot_retire_someone_elses_key() {
    let mut store = Store::new(None);
    let svc = Service::new();
    store.put(svc.live(1, 5300)).unwrap();

    // The attacker mints their own delegation over the key (nothing stops them
    // signing it) and tries to forward it at a key they control.
    let attacker = key::generate();
    let forged = Record::superseded(
        svc.pubkey(),
        Delegation::issue(&attacker, &svc.pubkey(), now_unix() + 86_400),
        2,
        key::public_of(&key::generate()),
        "mine now",
    )
    .sign(&attacker)
    .unwrap();

    let err = store.put(forged).unwrap_err();
    assert!(matches!(err, Error::Delegation(_)), "{}", err.to_string());
    assert!(!store.get(&svc.pubkey()).unwrap().record.is_terminal());
}

#[test]
fn a_key_is_bound_to_its_identity_by_its_very_first_record() {
    let mut store = Store::new(None);
    let svc = Service::new();
    store.put(svc.live(1, 5300)).unwrap();

    // A second identity claiming the same key is refused, whatever it signs.
    let claimant = key::generate();
    let claimed = Record::live(
        svc.pubkey(),
        Delegation::issue(&claimant, &svc.pubkey(), now_unix() + 86_400),
        2,
        300,
        vec![Endpoint::new(Host::V4([127, 0, 0, 1]), 6000)],
    )
    .sign(&svc.key)
    .unwrap();

    let err = store.put(claimed).unwrap_err();
    assert!(matches!(err, Error::Delegation(_)), "{}", err.to_string());
    assert_eq!(store.identity_of(&svc.pubkey()), Some(svc.identity_pubkey()));
}

#[test]
fn bindings_and_tombstones_survive_a_restart() {
    let path = PathBuf::from("records.db");
    let identity = key::generate();
    let live = Service::under(identity.clone());
    let dead = Service::under(identity.clone());

    let snapshot = {
        let mut store = Store::new(Some(path.clone()));
        store.put(live.live(1, 5300)).unwrap();
        store.put(dead.live(1, 5301)).unwrap();
        store.put(dead.revoked(2, "stolen")).unwrap();
        store.snapshot()
    };

    let mut reopened = Store::open(Some(path.clone()), Some(&snapshot));
    assert_eq!(reopened.snapshot_path(), Some(&path));
    assert_eq!(
        reopened.identity_of(&live.pubkey()),
        Some(live.identity_pubkey()),
        "the binding travels in the snapshot"
    );
    assert!(reopened.get(&dead.pubkey()).unwrap().record.is_revoked());
    assert!(reopened.put(dead.live(u64::MAX, 6000)).is_err());
    assert_eq!(reopened.identity_records(&key::public_of(&identity), 100).len(), 2);
}

#[test]
fn a_snapshot_survives_a_restart() {
    let services: Vec<Service> = (0..3).map(|_| Service::new()).collect();

    let snapshot = {
        let mut store = Store::new(None);
        for (i, svc) in services.iter().enumerate() {
            store.put(svc.live(1, 5300 + i as u16)).unwrap();
        }
        store.snapshot()
    };

    let reopened = Store::open(None, Some(&snapshot));
    assert_eq!(reopened.len(), 3);
    for (i, svc) in services.iter().enumerate() {
        let held = reopened.get(&svc.pubkey()).expect("record reloaded");
        assert_eq!(held.record.endpoints()[0].port, 5300 + i as u16);
        held.verify().expect("reloaded records are still signed");
    }
}

#[test]
fn a_tampered_snapshot_does_not_load_forged_records() {
    let svc = Service::new();

    let mut store = Store::new(None);
    store.put(svc.live(1, 5300)).unwrap();

    // Flip a byte in the middle of the file: whatever it lands on, the record
    // must not come back as a valid answer.
    let mut bytes = store.snapshot();
    let mid = bytes.len() / 2;
    bytes[mid] ^= 0xff;

    let store = Store::open(None, Some(&bytes));
    assert_eq!(store.len(), 0, "no forged record may load");
}

#[test]
fn a_retirement_is_never_swept() {
    let mut store = Store::new(None);
    let svc = Service::new();
    let mut record = Record::revoked(svc.pubkey(), svc.delegation.clone(), 1, "stolen");
    record.issued_at = now_unix() - 3600;
    record.ttl = 60; // long lapsed, were it an ordinary record
    store.put(record.sign(&svc.identity).unwrap()).unwrap();

    assert_eq!(store.purge_expired(), 0, "a tombstone must not be swept");
    assert!(store.get(&svc.pubkey()).is_some());
}

// -- Exact outcomes at a given time --

#[test]
fn admission_says_what_is_wrong() {
    let svc = Service::new();
    let now = now_unix();
    let endpoints = vec![Endpoint::new(Host::V4([127, 0, 0, 1]), 5300)];
    let record = |issued: u64, ttl: u32| {
        Record::live_at(svc.pubkey(), svc.delegation.clone(), 1, ttl, endpoints.clone(), issued)
            .sign(&svc.key)
            .unwrap()
    };
    let mut store = Store::new(None);

    assert_eq!(
        store.put_at(record(now + 301, 300), now).unwrap_err(),
        Error::Record("record is issued 301s in the future (max skew 300s)".to_string())
    );
    assert_eq!(store.put_at(record(now + 300, 300), now).unwrap(), PutOutcome::Stored);
    assert_eq!(store.put_at(record(now - 70, 60), now).unwrap_err(), Error::Expired(10));
    assert_eq!(
        store.put_at(record(now, 29), now).unwrap_err(),
        Error::Record("ttl must be 30..=604800 seconds, got 29".to_string())
    );
}

#[test]
fn a_retired_key_is_refused_by_name() {
    let mut store = Store::new(None);
    let (a, b) = (Service::new(), Service::new());
    store.put(a.revoked(1, "")).unwrap();
    assert_eq!(
        store.put(a.live(2, 1)).unwrap_err(),
        Error::Revoked {
            key: a.pubkey().to_string(),
            successor: None,
            reason: "no reason given".to_string(),
        }
    );
    store.put(b.superseded(1, a.pubkey())).unwrap();
    let err = store.put(b.live(2, 1)).unwrap_err();
    assert_eq!(
        err.to_string(),
        format!("key {} was superseded by {}", b.pubkey().to_string(), a.pubkey().to_string())
    );
}

#[test]
fn the_same_record_twice_changes_nothing() {
    let mut store = Store::new(None);
    let svc = Service::new();
    let record = svc.live(3, 5300);
    assert_eq!(store.put(record.clone()).unwrap(), PutOutcome::Stored);
    let revision = store.revision();
    assert_eq!(store.put(record.clone()).unwrap(), PutOutcome::Stale);
    assert!(!store.put(record.clone()).unwrap().stored());
    assert_eq!(store.revision(), revision);
    assert_eq!(store.get(&svc.pubkey()).unwrap(), record);
}

#[test]
fn order_of_arrival_does_not_matter() {
    let svc = Service::new();
    for (a, b) in [
        (svc.live(1, 1000), svc.live(2, 2000)),
        (svc.live(u64::MAX, 1000), svc.revoked(0, "gone")),
    ] {
        let mut first = Store::new(None);
        let _ = first.put(a.clone());
        let _ = first.put(b.clone());
        let mut second = Store::new(None);
        let _ = second.put(b.clone());
        let _ = second.put(a.clone());
        assert_eq!(first.get(&svc.pubkey()), second.get(&svc.pubkey()));
        assert_eq!(first.get(&svc.pubkey()), Some(b));
    }
}

#[test]
fn a_sweep_takes_only_what_expired() {
    let mut store = Store::new(None);
    let now = now_unix();
    let (short, long, dead) = (Service::new(), Service::new(), Service::new());
    let put = |store: &mut Store, s: &Service, ttl: u32| {
        let r = Record::live_at(s.pubkey(), s.delegation.clone(), 1, ttl, Vec::new(), now);
        store.put_at(r.sign(&s.key).unwrap(), now).unwrap();
    };
    put(&mut store, &short, 30);
    put(&mut store, &long, 3000);
    store.put_at(dead.revoked(1, "stolen"), now).unwrap();
    let revision = store.revision();

    assert_eq!(store.purge_expired_at(now + 29), 0);
    assert_eq!(store.revision(), revision);
    assert_eq!(store.purge_expired_at(now + 30), 1);
    assert_ne!(store.revision(), revision);
    assert_eq!(store.len(), 2);
    assert!(store.get_at(&short.pubkey(), now).is_none());
    assert!(store.get_at(&long.pubkey(), now + 30).is_some());
    assert!(store.get_at(&dead.pubkey(), u64::MAX).is_some());
    // The binding outlives the record.
    assert_eq!(store.identity_of(&short.pubkey()), Some(short.identity_pubkey()));
}

#[test]
fn sync_goes_by_time_and_then_by_key() {
    let mut store = Store::new(None);
    let now = now_unix();
    let services: Vec<Service> = (0..6).map(|_| Service::new()).collect();
    for (i, s) in services.iter().enumerate() {
        let issued = now - (i as u64 % 2);
        let r = Record::live_at(s.pubkey(), s.delegation.clone(), 1, 300, Vec::new(), issued);
        store.put_at(r.sign(&s.key).unwrap(), now).unwrap();
    }
    let (all, complete) = store.since_at(0, 6, now);
    assert!(complete);
    let keys: Vec<(u64, [u8; 32])> =
        all.iter().map(|r| (r.record.issued_at, r.key().to_bytes())).collect();
    let mut sorted = keys.clone();
    sorted.sort();
    assert_eq!(keys, sorted);
    let (late, complete) = store.since_at(now, 2, now);
    assert_eq!(late.len(), 2);
    assert!(!complete);
    assert!(late.iter().all(|r| r.record.issued_at == now));
}

#[test]
fn an_identity_listing_is_limited_and_in_key_order() {
    let mut store = Store::new(None);
    let identity = key::generate();
    let services: Vec<Service> = (0..4).map(|_| Service::under(identity.clone())).collect();
    for s in &services {
        store.put(s.live(1, 1)).unwrap();
    }
    store.put(Service::new().live(1, 1)).unwrap();
    let all = store.identity_records(&key::public_of(&identity), 100);
    assert_eq!(all.len(), 4);
    assert!(all.windows(2).all(|w| w[0].key().to_bytes() < w[1].key().to_bytes()));
    let some = store.identity_records(&key::public_of(&identity), 3);
    assert_eq!(some, all[..3].to_vec());
    assert!(store.identity_records(&key::public_of(&key::generate()), 3).is_empty());
}

#[test]
fn an_unreadable_snapshot_is_an_empty_store() {
    for bytes in [&b"SQNSDB\x02"[..], &b"SQNSXX\x03"[..], &b""[..]] {
        let store = Store::open(None, Some(bytes));
        assert!(store.is_empty());
    }
    assert!(Store::open(None, None).is_empty());
    let empty = Store::new(None).snapshot();
    assert_eq!(empty, b"SQNSDB\x03\0\0\0\0\0\0\0\0".to_vec());
}

#[test]
fn a_lapsed_record_does_not_come_back_but_its_binding_does() {
    let now = now_unix();
    let s = Service::new();
    let mut store = Store::new(None);
    let r = Record::live_at(s.pubkey(), s.delegation.clone(), 1, 60, Vec::new(), now);
    store.put_at(r.sign(&s.key).unwrap(), now).unwrap();
    let reopened = Store::open_at(None, Some(&store.snapshot()), now + 60);
    assert_eq!(reopened.len(), 0);
    assert_eq!(reopened.identity_of(&s.pubkey()), Some(s.identity_pubkey()));
}
