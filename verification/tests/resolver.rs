//! What a resolver accepts from servers, and whole exchanges in memory.

use sqns::addr::ServerAddr;
use sqns::error::{Error, Result};
use sqns::key::{self, generate, public_of, PubKey, SigningKey};
use sqns::protocol::{
    decode_header, encode_frame, ErrorCode, Request, Response, StatusInfo, DEFAULT_RECURSE,
};
use sqns::publisher::{refused_as_stale, Publication, PublishStep, Publisher};
use sqns::record::{
    now_unix, Delegation, Endpoint, Host, Record, RecordBody, SignedRecord,
};
use sqns::replication::{push_request, Pull};
use sqns::resolver::{refuse_retired, Found, Resolver, ResolverConfig};
use sqns::server::{Action, Server};
use sqns::store::Store;
use sqns::tally::{take_identity_listing, take_status, Attempts, PublishTally};
use sqns::upstream::{LinkReply, Upstream};
use sqns::walk::{ServiceLocation, ServiceWalk};

/// A service key and the identity that issued it.
struct Service {
    identity: SigningKey,
    key: SigningKey,
    delegation: Delegation,
}

impl Service {
    fn new() -> Self {
        Self::under(generate())
    }

    fn under(identity: SigningKey) -> Self {
        let key = generate();
        let delegation = Delegation::issue(&identity, &public_of(&key), now_unix() + 86_400);
        Self { identity, key, delegation }
    }

    fn pubkey(&self) -> PubKey {
        public_of(&self.key)
    }

    fn identity_pubkey(&self) -> PubKey {
        public_of(&self.identity)
    }

    fn live(&self, serial: u64) -> SignedRecord {
        self.live_at(serial, vec![Endpoint::new(Host::V4([127, 0, 0, 1]), 5300)])
    }

    fn live_at(&self, serial: u64, endpoints: Vec<Endpoint>) -> SignedRecord {
        Record::live(self.pubkey(), self.delegation.clone(), serial, 300, endpoints)
            .sign(&self.key)
            .unwrap()
    }

    fn revoked(&self, serial: u64, reason: &str) -> SignedRecord {
        Record::revoked(self.pubkey(), self.delegation.clone(), serial, reason)
            .sign(&self.identity)
            .unwrap()
    }

    fn superseded(&self, serial: u64, successor: PubKey) -> SignedRecord {
        Record::superseded(self.pubkey(), self.delegation.clone(), serial, successor, "rotated")
            .sign(&self.identity)
            .unwrap()
    }

    fn publisher(&self, endpoints: Vec<Endpoint>) -> Publisher {
        Publisher::new(self.key.clone(), self.delegation.clone(), endpoints, 300)
            .expect("publisher")
    }
}

/// A resolver pointed at an address it never dials: enough to exercise the
/// guards, which run before any answer is trusted.
fn offline_resolver() -> Resolver {
    Resolver::single(ServerAddr::new("127.0.0.1", 1, public_of(&generate()))).expect("resolver")
}

#[test]
fn a_server_cannot_follow_a_retirement_with_a_live_record() {
    for retired in [
        Service::new().superseded(1, public_of(&generate())),
        Service::new().revoked(1, "stolen"),
    ] {
        let mut resolver = offline_resolver();
        resolver.note_rank(&retired).expect("retirement accepted");

        // A live record for the same key, at the highest serial there is.
        let service = Service::new();
        let mut live = service.live(u64::MAX);
        live.record.key = retired.key();
        live.record.delegation = retired.record.delegation.clone();

        let err = resolver.note_rank(&live).unwrap_err();
        assert!(matches!(err, Error::Downgrade(_)), "{}", err.to_string());
    }
}

#[test]
fn a_server_cannot_walk_a_serial_backwards() {
    let mut resolver = offline_resolver();
    let service = Service::new();

    resolver.note_rank(&service.live(9)).expect("first answer is accepted");
    let err = resolver.note_rank(&service.live(4)).unwrap_err();
    assert!(matches!(err, Error::Downgrade(_)), "{}", err.to_string());
    resolver.note_rank(&service.live(9)).expect("same rank is not a downgrade");
}

/// A key answering to a different identity is a thief who minted their own
/// delegation, not a rotation: rotation moves to a different key and says so. A
/// resolver that has seen the key before must notice.
#[test]
fn a_key_cannot_change_the_identity_behind_it() {
    let mut resolver = offline_resolver();
    let service = Service::new();
    resolver.note_rank(&service.live(1)).expect("first answer");

    // Same service key, re-issued by an identity of the attacker's own.
    let attacker = generate();
    let reissued = Record::live(
        service.pubkey(),
        Delegation::issue(&attacker, &service.pubkey(), now_unix() + 86_400),
        2,
        300,
        vec![Endpoint::new(Host::V4([127, 0, 0, 1]), 6000)],
    )
    .sign(&service.key)
    .unwrap();

    // It verifies on its own: that is the point of the guard.
    reissued.verify_answer(&service.pubkey(), now_unix()).unwrap();
    let err = resolver.note_rank(&reissued).unwrap_err();
    assert!(matches!(err, Error::Delegation(_)), "{}", err.to_string());
}

#[test]
fn an_ordinary_refresh_is_not_a_downgrade() {
    let mut resolver = offline_resolver();
    let service = Service::new();

    for serial in 1..5 {
        resolver.note_rank(&service.live(serial)).expect("serials only go up");
    }
}

// -- Whole exchanges, with the network replaced by a function call --

/// A server in memory.
struct TestServer {
    server: Server,
    addr: ServerAddr,
}

fn start_server() -> TestServer {
    start_server_with(true, Upstream::new(Vec::new(), true, 4))
}

fn start_server_with(allow_sync: bool, upstream: Upstream) -> TestServer {
    TestServer {
        server: Server::new(Store::new(None), upstream, 0, allow_sync),
        addr: ServerAddr::new("127.0.0.1", 5300, public_of(&generate())),
    }
}

/// A message as it crosses the wire.
fn through_frame(frame_type: u8, payload: Vec<u8>) -> (u8, Vec<u8>) {
    let bytes = encode_frame(frame_type, &payload).expect("fits a frame");
    let header: [u8; 5] = bytes[..5].try_into().unwrap();
    let (t, len) = decode_header(&header).expect("header");
    assert_eq!(len as usize, bytes.len() - 5);
    (t, bytes[5..].to_vec())
}

impl TestServer {
    /// One exchange; `peers` get what is pushed, `above` is asked upstream.
    fn exchange(&mut self, req: &Request, peers: &mut [TestServer]) -> Response {
        self.exchange_with(req, peers, &mut [])
    }

    fn exchange_with(
        &mut self,
        req: &Request,
        peers: &mut [TestServer],
        above: &mut [Option<TestServer>],
    ) -> Response {
        let (t, payload) = through_frame(req.frame_type(), req.encode_payload());
        let req = Request::decode(t, &payload).expect("request");
        let now = now_unix();
        let reply = match self.server.handle(req, 7, now) {
            Action::Reply(r) => r,
            Action::ReplyAndPush { reply, record } => {
                for peer in peers {
                    peer.exchange(&push_request(&record), &mut []);
                }
                reply
            },
            Action::Ask { key, recurse } => match self.server.recall(&key, now) {
                Some(r) => r,
                None => {
                    let mut q = self.server.upstream.query(&key, recurse);
                    let mut found = None;
                    while q.pending(&self.server.upstream) {
                        let reply = match &mut above[q.position()] {
                            Some(up) => LinkReply::Response(up.exchange(&q.request(), &mut [])),
                            None => LinkReply::TimedOut,
                        };
                        found = self.server.take_upstream(&mut q, reply, now);
                        if found.is_some() {
                            break;
                        }
                    }
                    match found {
                        Some(r) => r,
                        None => self.server.finish_upstream(q, now),
                    }
                },
            },
        };
        let (t, payload) = through_frame(reply.frame_type(), reply.encode_payload());
        Response::decode(t, &payload).expect("response")
    }
}

/// A client of some servers, of which `None` cannot be reached.
struct Client<'a> {
    resolver: Resolver,
    servers: Vec<Option<&'a mut TestServer>>,
    peers: Vec<TestServer>,
}

impl<'a> Client<'a> {
    fn of(server: &'a mut TestServer) -> Self {
        Self::with(vec![Some(server)])
    }

    fn with(servers: Vec<Option<&'a mut TestServer>>) -> Self {
        let addrs = servers
            .iter()
            .map(|s| match s {
                Some(s) => s.addr.clone(),
                None => ServerAddr::new("127.0.0.1", 1, public_of(&generate())),
            })
            .collect();
        let config = ResolverConfig { servers: addrs, cache: false, ..ResolverConfig::default() };
        Client { resolver: Resolver::new(config).unwrap(), servers, peers: Vec::new() }
    }

    fn request(&mut self, idx: usize, req: &Request) -> Result<Response> {
        match &mut self.servers[idx] {
            Some(s) => Ok(s.exchange(req, &mut self.peers)),
            None => Err(Error::Connection("no route".to_string())),
        }
    }

    fn try_servers(&mut self, req: &Request, what: &str) -> Result<Response> {
        let mut attempts = Attempts::new(what);
        for idx in 0..self.servers.len() {
            let reply = self.request(idx, req);
            let addr = self.resolver.servers()[idx].clone();
            if let Some(answer) = attempts.take(&addr, reply) {
                return Ok(answer);
            }
        }
        Err(attempts.give_up())
    }

    fn fetch(&mut self, key: &PubKey) -> Result<Found> {
        if let Some(hit) = self.resolver.cached(key, now_unix()) {
            return Ok((hit, None));
        }
        let req = self.resolver.lookup_request(key);
        let reply = self.try_servers(&req, "lookup")?;
        self.resolver.take_answer(key, reply, now_unix())
    }

    fn lookup(&mut self, key: &PubKey) -> Result<Option<SignedRecord>> {
        Ok(self.fetch(key)?.0)
    }

    fn resolve_service(&mut self, key: &PubKey) -> Result<ServiceLocation> {
        let mut walk = ServiceWalk::start(key);
        loop {
            let found = match walk.take_prefetched() {
                Some(rec) => (Some(rec), None),
                None => self.fetch(&walk.current())?,
            };
            if let Some(location) = self.resolver.step_walk(&mut walk, found, now_unix())? {
                return Ok(location);
            }
        }
    }

    fn resolve(&mut self, key: &PubKey) -> Result<Vec<Endpoint>> {
        Ok(self.resolve_service(key)?.endpoints)
    }

    fn publish(&mut self, record: &SignedRecord) -> Result<u64> {
        let req = self.resolver.publish_request(record, now_unix())?;
        let mut tally = PublishTally::new(record);
        for idx in 0..self.servers.len() {
            let reply = self.request(idx, &req);
            let addr = self.resolver.servers()[idx].clone();
            tally.take(&addr, reply);
        }
        self.resolver.forget(&record.key());
        tally.finish()
    }

    fn publish_with(&mut self, p: &mut Publisher) -> Result<u64> {
        self.publish_for(p, false)
    }

    fn publish_for(&mut self, p: &mut Publisher, withdraw: bool) -> Result<u64> {
        let (mut publication, mut step) = Publication::start(p, withdraw, now_unix());
        loop {
            step = match step {
                PublishStep::Publish(record) => publication.published(self.publish(&record)),
                PublishStep::LookUp => {
                    let held = self.lookup(&p.key());
                    publication.looked_up(p, held, now_unix())
                },
                PublishStep::Done(result) => return result,
            };
        }
    }

    fn lookup_identity(&mut self, identity: &PubKey) -> Result<Vec<SignedRecord>> {
        let reply = self
            .try_servers(&Request::LookupIdentity { identity: *identity }, "identity lookup")?;
        take_identity_listing(identity, reply, now_unix())
    }

    fn status(&mut self) -> Result<StatusInfo> {
        take_status(self.try_servers(&Request::Status, "status")?)
    }
}

fn endpoints() -> Vec<Endpoint> {
    vec![
        Endpoint::new(Host::V4([198, 51, 100, 4]), 443).with_priority(10).with_weight(100),
        Endpoint::new(Host::from_str("2001:db8::5").unwrap(), 443)
            .with_priority(10)
            .with_weight(1),
        Endpoint::new(Host::Name("backup.example.com".to_string()), 4433).with_priority(50),
    ]
}

fn moved_endpoints(last_octet: u8) -> Vec<Endpoint> {
    vec![Endpoint::new(Host::V4([203, 0, 113, last_octet]), 5300)]
}

#[test]
fn publish_then_look_up_a_key() {
    let mut server = start_server();
    let mut client = Client::of(&mut server);
    let node = Service::new();

    let serial = client.publish(&node.live_at(1, endpoints())).expect("publish");
    assert_eq!(serial, 1);

    let record = client.lookup(&node.pubkey()).expect("lookup").expect("a record is held");
    assert_eq!(record.record.key, node.pubkey());
    assert_eq!(record.record.endpoints().len(), 3);
    record.verify().expect("the answer is signed by the key");
}

#[test]
fn resolve_orders_endpoints_by_priority() {
    let mut server = start_server();
    let mut client = Client::of(&mut server);
    let node = Service::new();
    client.publish(&node.live_at(1, endpoints())).unwrap();

    let ordered = client.resolve(&node.pubkey()).expect("resolve");
    assert_eq!(ordered.len(), 3);
    assert!(
        ordered[0].priority <= ordered[1].priority,
        "priority 10 endpoints come before priority 50"
    );
    assert_eq!(ordered[2].host, Host::Name("backup.example.com".to_string()));

    // Both address families survive the round trip.
    assert!(ordered.iter().any(|e| matches!(e.host, Host::V4(_))));
    assert!(ordered.iter().any(|e| e.host.is_ipv6()));
}

#[test]
fn an_unpublished_key_resolves_to_nothing() {
    let mut server = start_server();
    let mut client = Client::of(&mut server);
    let stranger = public_of(&generate());

    assert!(client.lookup(&stranger).unwrap().is_none());
    let err = client.resolve(&stranger).unwrap_err();
    assert_eq!(err, Error::Unpublished(stranger.to_string()));
}

#[test]
fn a_forged_record_is_rejected_by_the_server() {
    let mut server = start_server();
    let node = Service::new();
    let mut forged = node.live_at(1, endpoints());
    tamper_port(&mut forged, 31337);

    let mut client = Client::of(&mut server);
    let err = client.publish(&forged).unwrap_err();
    assert!(matches!(err, Error::Signature(_)), "{}", err.to_string());

    // A client that does not look first is refused all the same.
    let reply = server.exchange(&Request::Publish { record: Box::new(forged) }, &mut []);
    assert!(matches!(reply, Response::Error { code: ErrorCode::BadSignature, .. }));
    assert_eq!(server.server.store.len(), 0);
}

#[test]
fn republishing_updates_the_record() {
    let mut server = start_server();
    let mut client = Client::of(&mut server);
    let node = Service::new();

    client.publish(&node.live_at(1, endpoints())).unwrap();
    client.publish(&node.live_at(2, moved_endpoints(9))).unwrap();

    let record = client.lookup(&node.pubkey()).unwrap().unwrap();
    assert_eq!(record.record.serial, 2);
    assert_eq!(record.record.endpoints().len(), 1);
    assert_eq!(record.record.endpoints()[0].port, 5300);
}

#[test]
fn an_older_serial_cannot_roll_a_record_back() {
    let mut server = start_server();
    let mut client = Client::of(&mut server);
    let node = Service::new();

    client.publish(&node.live_at(5, endpoints())).unwrap();
    let err = client.publish(&node.live_at(4, moved_endpoints(9))).unwrap_err();
    match err {
        Error::Server { code, message } => {
            assert_eq!(code, ErrorCode::Stale.to_u16());
            let addr = client.resolver.servers()[0].to_string();
            let key = node.pubkey().to_string();
            assert_eq!(
                message,
                format!(
                    "{addr}: server error Stale: a record with serial >= 4 is already held for {key}"
                )
            );
        },
        other => panic!("a rollback must be refused as stale, got: {}", other.to_string()),
    }

    let record = client.lookup(&node.pubkey()).unwrap().unwrap();
    assert_eq!(record.record.serial, 5);
}

#[test]
fn a_withdrawn_key_resolves_to_no_endpoints() {
    let mut server = start_server();
    let mut client = Client::of(&mut server);
    let node = Service::new();

    client.publish(&node.live_at(1, endpoints())).unwrap();
    client.publish(&node.live_at(2, Vec::new())).unwrap();

    let record =
        client.lookup(&node.pubkey()).unwrap().expect("the withdrawal itself is a record");
    assert!(record.record.is_withdrawal());
    assert!(client.resolve(&node.pubkey()).unwrap().is_empty());
}

#[test]
fn status_reports_what_the_server_holds() {
    let mut server = start_server();
    let mut client = Client::of(&mut server);
    client.publish(&Service::new().live_at(1, endpoints())).unwrap();

    let status = client.status().expect("status");
    assert_eq!(status.records, 1);
    assert_eq!(status.peers, 0);
    assert_eq!(status.uptime_secs, 7);
    assert_eq!(status.version, sqns::VERSION);
}

#[test]
fn a_record_published_to_one_server_is_pushed_to_its_peer() {
    let follower = start_server();
    let mut leader = start_server();
    let node = Service::new();
    let key = node.pubkey();

    let mut client = Client::of(&mut leader);
    client.peers.push(follower);
    client.publish(&node.live_at(1, endpoints())).unwrap();
    let mut follower = client.peers.pop().unwrap();
    assert!(follower.server.store.get(&key).is_some());

    // The follower can answer for it, and the answer still verifies.
    let record = Client::of(&mut follower).lookup(&key).unwrap().unwrap();
    record.verify().unwrap();
    assert_eq!(record.record.endpoints().len(), 3);
}

/// Pull from `from` into `to`, as the timer would.
fn pull(from: &mut TestServer, to: &mut TestServer, watermark: u64) -> Result<Pull> {
    let mut pull = Pull::start(watermark);
    loop {
        let reply = from.exchange(&pull.request(), &mut []);
        if !pull.take(&mut to.server.store, reply, now_unix())? {
            return Ok(pull);
        }
    }
}

#[test]
fn a_new_server_pulls_existing_records_from_its_peer() {
    let mut seeded = start_server();
    let nodes: Vec<Service> = (0..3).map(|_| Service::new()).collect();
    let mut client = Client::of(&mut seeded);
    for (i, node) in nodes.iter().enumerate() {
        client.publish(&node.live_at(i as u64 + 1, endpoints())).unwrap();
    }

    // A server that starts later catches up by anti-entropy, with no push.
    let mut latecomer = start_server();
    let done = pull(&mut seeded, &mut latecomer, 0).unwrap();
    assert_eq!(done.applied(), 3);
    assert_eq!(latecomer.server.store.len(), 3);
    for node in &nodes {
        assert!(latecomer.server.store.get(&node.pubkey()).is_some());
    }

    // The next pull starts where this one ended, and finds nothing new.
    let again = pull(&mut seeded, &mut latecomer, done.watermark()).unwrap();
    assert_eq!(again.applied(), 0);
    assert_eq!(again.watermark(), done.watermark());
}

#[test]
fn a_watermark_never_falls() {
    let mut store = Store::new(None);
    let service = Service::new();
    let old = service.live(1);
    let issued = old.record.issued_at;

    // A peer that sends a record from before the watermark does not lower it.
    let mut pull = Pull::start(issued + 50);
    let reply = Response::Records { records: vec![old], complete: true };
    assert!(!pull.take(&mut store, reply, issued).unwrap());
    assert_eq!((pull.watermark(), pull.applied()), (issued + 50, 1));

    // A later one raises it, however the batch is ordered.
    let mut late = Service::new().live(1);
    late.record.issued_at = issued + 90;
    let reply = Response::Records { records: vec![late, service.live(1)], complete: false };
    assert!(pull.take(&mut store, reply, issued).unwrap());
    assert_eq!(pull.watermark(), issued + 90);
    let reply = Response::Records { records: Vec::new(), complete: true };
    assert!(!pull.take(&mut store, reply, issued).unwrap());
    assert_eq!(pull.watermark(), issued + 90);
}

#[test]
fn a_publish_gives_the_records_own_serial() {
    let record = Service::new().live(7);
    let addr = ServerAddr::new("h", 1, record.key());
    let published = |serial| Ok(Response::Published { serial, expires_at: 0 });
    let stale = || Ok(Response::error(ErrorCode::Stale, "old"));
    let down = || Err(Error::Connection("down".to_string()));

    // Whatever number a server reports.
    let mut tally = PublishTally::new(&record);
    tally.take(&addr, published(99));
    tally.take(&addr, down());
    tally.take(&addr, published(3));
    assert_eq!(tally.finish().unwrap(), 7);

    let mut tally = PublishTally::new(&record);
    tally.take(&addr, stale());
    tally.take(&addr, stale());
    let result = tally.finish();
    assert!(refused_as_stale(&result));
    assert!(matches!(result, Err(Error::Server { code: 4, .. })));

    let mut tally = PublishTally::new(&record);
    tally.take(&addr, stale());
    tally.take(&addr, down());
    let result = tally.finish();
    assert!(!refused_as_stale(&result));
    assert!(matches!(result, Err(Error::NoServer(_))));
}

#[test]
fn publishing_is_tried_again_once() {
    let service = Service::new();
    let stale = || Err(Error::Server { code: 4, message: "stale".to_string() });
    let mut p = service.publisher(endpoints());
    let now = now_unix();

    let (mut publication, step) = Publication::start(&mut p, false, now);
    let first = match step {
        PublishStep::Publish(record) => record,
        other => panic!("{other:?}"),
    };
    assert_eq!(first.record.endpoints().len(), 3);
    assert_eq!(publication.published(Ok(5)), PublishStep::Done(Ok(5)));
    assert_eq!(publication.published(stale()), PublishStep::LookUp);

    let held = service.live(first.record.serial + 40);
    match publication.looked_up(&mut p, Ok(Some(held.clone())), now) {
        PublishStep::Publish(second) => {
            assert_eq!(second.record.serial, held.record.serial + 1);
            assert!(second.record.supersedes(&held.record));
            assert!(second.verify().is_ok());
        },
        other => panic!("{other:?}"),
    }
    assert_eq!(publication.published(stale()), PublishStep::Done(stale()));

    // A lookup that fails ends it, and a withdrawal has no endpoints.
    let (mut publication, step) = Publication::start(&mut p, true, now);
    match step {
        PublishStep::Publish(record) => assert!(record.record.is_withdrawal()),
        other => panic!("{other:?}"),
    }
    let down = || Err(Error::Connection("down".to_string()));
    assert_eq!(
        publication.looked_up(&mut p, down(), now),
        PublishStep::Done(Err(Error::Connection("down".to_string())))
    );
}

#[test]
fn a_server_can_refuse_to_serve_its_whole_record_set() {
    let mut closed = start_server_with(false, Upstream::new(Vec::new(), true, 4));
    Client::of(&mut closed).publish(&Service::new().live_at(1, endpoints())).unwrap();

    // A peer pointed at it gets nothing, while ordinary requests still work.
    let mut latecomer = start_server();
    let err = match pull(&mut closed, &mut latecomer, 0) {
        Ok(_) => panic!("sync must have been refused"),
        Err(e) => e,
    };
    assert_eq!(
        err,
        Error::Server {
            code: 7,
            message: "this server does not answer sync requests".to_string()
        }
    );
    assert_eq!(latecomer.server.store.len(), 0);
    assert_eq!(Client::of(&mut closed).status().unwrap().records, 1);
}

#[test]
fn a_client_falls_back_to_the_next_server() {
    let mut live = start_server();
    let node = Service::new();
    Client::of(&mut live).publish(&node.live_at(1, endpoints())).unwrap();

    // The first server cannot be reached; the resolver must move on.
    let mut client = Client::with(vec![None, Some(&mut live)]);
    assert!(client.lookup(&node.pubkey()).expect("lookup").is_some());
    assert_eq!(client.publish(&node.live_at(2, endpoints())).unwrap(), 2);

    let mut nobody = Client::with(vec![None]);
    let addr = nobody.resolver.servers()[0].to_string();
    assert_eq!(
        nobody.lookup(&node.pubkey()).unwrap_err(),
        Error::NoServer(format!(
            "lookup failed on every server ({addr}: connection error: no route)"
        ))
    );
    assert_eq!(
        nobody.publish(&node.live_at(3, endpoints())).unwrap_err(),
        Error::NoServer(format!(
            "no server accepted the record ({addr}: connection error: no route)"
        ))
    );
}

#[test]
fn rapid_republishing_is_not_refused_as_stale() {
    let mut server = start_server();
    let mut client = Client::of(&mut server);
    let mut publisher = Service::new().publisher(endpoints());

    // Serials are seeded from the wall clock, so these all land in one second.
    let mut serials = Vec::new();
    for _ in 0..5 {
        serials.push(client.publish_with(&mut publisher).expect("republish"));
    }
    assert!(
        serials.windows(2).all(|w| w[1] > w[0]),
        "each publish must take a higher serial, got {serials:?}"
    );
    assert_eq!(server.server.store.len(), 1);
}

#[test]
fn a_restarted_publisher_replaces_its_own_earlier_record() {
    let mut server = start_server();
    let mut client = Client::of(&mut server);
    let node = Service::new();

    let mut first = node.publisher(endpoints());
    client.publish_with(&mut first).expect("first publish");
    client.publish_with(&mut first).expect("and a refresh");

    // A fresh publisher for the same key, in the same second: its counter
    // starts from the same clock reading and must still take over.
    let mut restarted = node.publisher(moved_endpoints(9));
    client.publish_with(&mut restarted).expect("republish after restart");

    let record = client.lookup(&node.pubkey()).unwrap().unwrap();
    assert_eq!(record.record.endpoints().len(), 1);
    assert_eq!(record.record.endpoints()[0].port, 5300);

    // And the same publisher can withdraw immediately afterwards.
    client.publish_for(&mut restarted, true).expect("withdraw");
    assert!(client.lookup(&node.pubkey()).unwrap().unwrap().record.is_withdrawal());
}

/// Alter an endpoint after signing, the way an attacker on the wire would.
fn tamper_port(signed: &mut SignedRecord, port: u16) {
    match &mut signed.record.body {
        RecordBody::Live { endpoints } => endpoints[0].port = port,
        _ => panic!("no endpoints to tamper with"),
    }
}

// -- Many services under one identity --

#[test]
fn one_identity_runs_three_services_each_on_its_own_key() {
    let mut server = start_server();
    let mut client = Client::of(&mut server);

    // Three nodes, three private keys, one identity that issued them all.
    let identity = key::generate();
    let nodes: Vec<Service> = (0..3).map(|_| Service::under(identity.clone())).collect();
    for (i, node) in nodes.iter().enumerate() {
        client
            .publish_with(&mut node.publisher(moved_endpoints(i as u8 + 1)))
            .expect("each node publishes for itself");
    }

    // Each resolves by its own public key, and names the identity behind it.
    for (i, node) in nodes.iter().enumerate() {
        let location = client.resolve_service(&node.pubkey()).expect("resolve");
        assert_eq!(location.key, node.pubkey());
        assert!(!location.is_stale());
        assert_eq!(location.identity, node.identity_pubkey());
        assert_eq!(location.endpoints, moved_endpoints(i as u8 + 1));
    }

    // The identity lists all three.
    let listed = client.lookup_identity(&public_of(&identity)).expect("identity lookup");
    assert_eq!(listed.len(), 3);
}

#[test]
fn revoking_one_service_leaves_the_others_running() {
    let mut server = start_server();
    let mut client = Client::of(&mut server);
    let identity = key::generate();
    let nodes: Vec<Service> = (0..3).map(|_| Service::under(identity.clone())).collect();
    for node in &nodes {
        client.publish_with(&mut node.publisher(endpoints())).unwrap();
    }

    // Node 1's host is breached; the identity revokes just that key.
    let doomed = nodes[1].pubkey();
    client.publish(&nodes[1].revoked(99, "host breached")).expect("revoke");

    let err = client.resolve_service(&doomed).unwrap_err();
    assert!(matches!(err, Error::Revoked { .. }), "{}", err.to_string());
    assert!(
        client.publish(&nodes[1].live_at(u64::MAX, endpoints())).is_err(),
        "the thief cannot republish the revoked key"
    );

    // The siblings never noticed.
    for i in [0, 2] {
        let location =
            client.resolve_service(&nodes[i].pubkey()).expect("sibling still resolves");
        assert_eq!(location.endpoints.len(), endpoints().len());
        client
            .publish_with(&mut nodes[i].publisher(endpoints()))
            .expect("and still publishes");
    }
}

// -- Rotation: retiring a key and forwarding to its replacement --

#[test]
fn a_rotated_key_forwards_to_its_replacement_in_one_exchange() {
    let mut server = start_server();
    let mut client = Client::of(&mut server);
    let identity = key::generate();
    let old = Service::under(identity.clone());
    let new = Service::under(identity);

    client.publish_with(&mut old.publisher(endpoints())).unwrap();
    client.publish_with(&mut new.publisher(moved_endpoints(9))).unwrap();

    // The identity retires the old key, naming its replacement.
    client.publish(&old.superseded(99, new.pubkey())).expect("supersede");

    // The answer brings the replacement's record along.
    let (_, successor) = client.fetch(&old.pubkey()).unwrap();
    assert_eq!(successor.expect("sent along").key(), new.pubkey());

    // A client that only knows the old key still gets there, and learns what to
    // pin from now on.
    let location =
        client.resolve_service(&old.pubkey()).expect("resolve follows the forward");
    assert_eq!(location.requested, old.pubkey());
    assert_eq!(location.key, new.pubkey());
    assert!(location.is_stale(), "the caller's pinned key is out of date");
    assert_eq!(location.superseded_from, vec![old.pubkey()]);
    assert_eq!(location.endpoints, moved_endpoints(9));

    // The thief still holding the old key can publish nothing.
    let err = client.publish(&old.live_at(u64::MAX, endpoints())).unwrap_err();
    assert!(
        err.to_string().contains(&format!(
            "server error Superseded: key {} was superseded by {}",
            old.pubkey().to_string(),
            new.pubkey().to_string()
        )),
        "{}",
        err.to_string()
    );
}

#[test]
fn a_chain_of_rotations_resolves_to_the_end() {
    let mut server = start_server();
    let mut client = Client::of(&mut server);
    let identity = key::generate();
    let keys: Vec<Service> = (0..3).map(|_| Service::under(identity.clone())).collect();

    client.publish_with(&mut keys[2].publisher(moved_endpoints(3))).unwrap();
    for hop in 0..2 {
        client
            .publish(&keys[hop].superseded(1, keys[hop + 1].pubkey()))
            .expect("supersede");
    }

    let location = client.resolve_service(&keys[0].pubkey()).expect("two hops resolve");
    assert_eq!(location.key, keys[2].pubkey());
    assert_eq!(location.superseded_from.len(), 2);
    assert_eq!(location.endpoints, moved_endpoints(3));
}

#[test]
fn a_chain_is_followed_only_so_far() {
    let mut server = start_server();
    let mut client = Client::of(&mut server);
    let identity = key::generate();
    let keys: Vec<Service> = (0..10).map(|_| Service::under(identity.clone())).collect();
    client.publish(&keys[9].live_at(1, endpoints())).unwrap();
    for hop in 0..9 {
        client.publish(&keys[hop].superseded(1, keys[hop + 1].pubkey())).unwrap();
    }

    // Eight rotations are followed.
    let location = client.resolve_service(&keys[1].pubkey()).expect("eight hops resolve");
    assert_eq!(location.key, keys[9].pubkey());
    let left: Vec<PubKey> = keys[1..9].iter().map(|k| k.pubkey()).collect();
    assert_eq!(location.superseded_from, left);

    // The ninth is refused.
    let err = client.resolve_service(&keys[0].pubkey()).unwrap_err();
    assert_eq!(
        err,
        Error::SupersedeChain(format!(
            "{} forwards through more than 8 keys",
            keys[0].pubkey().to_string()
        ))
    );
}

#[test]
fn a_rotation_cycle_is_refused_rather_than_followed() {
    let mut server = start_server();
    let mut client = Client::of(&mut server);
    let identity = key::generate();
    let a = Service::under(identity.clone());
    let b = Service::under(identity);

    client.publish(&a.superseded(1, b.pubkey())).unwrap();
    client.publish(&b.superseded(1, a.pubkey())).unwrap();

    let err = client.resolve_service(&a.pubkey()).unwrap_err();
    assert_eq!(
        err,
        Error::SupersedeChain(format!(
            "{} forwards in a cycle, back to {}",
            a.pubkey().to_string(),
            a.pubkey().to_string()
        )),
        "a cycle must error rather than spin"
    );
}

#[test]
fn a_stranger_cannot_forward_someone_elses_key() {
    let mut server = start_server();
    let mut client = Client::of(&mut server);
    let service = Service::new();
    client.publish_with(&mut service.publisher(endpoints())).unwrap();

    // The attacker mints their own delegation over the key and tries to point
    // it at a key they hold.
    let attacker = key::generate();
    let forged = Record::superseded(
        service.pubkey(),
        Delegation::issue(&attacker, &service.pubkey(), now_unix() + 86_400),
        99,
        public_of(&generate()),
        "mine now",
    )
    .sign(&attacker)
    .expect("nothing stops them signing it");

    assert!(client.publish(&forged).is_err());
    let location =
        client.resolve_service(&service.pubkey()).expect("the real key still resolves");
    assert!(!location.is_stale());
    assert_eq!(location.endpoints.len(), endpoints().len());
}

#[test]
fn a_retirement_replicates_to_peers() {
    let follower = start_server();
    let mut leader = start_server();
    let service = Service::new();
    let key = service.pubkey();

    let mut client = Client::of(&mut leader);
    client.peers.push(follower);
    client.publish_with(&mut service.publisher(endpoints())).unwrap();
    client.publish(&service.revoked(99, "host compromised")).expect("revoke");

    let mut follower = client.peers.pop().unwrap();
    assert!(follower.server.store.get(&key).is_some_and(|r| r.record.is_revoked()));
    assert!(
        Client::of(&mut follower).publish(&service.live_at(u64::MAX, endpoints())).is_err(),
        "the peer must refuse publishes for a revoked key"
    );
}

// -- Details --

#[test]
fn a_resolver_needs_a_server() {
    let err = match Resolver::new(ResolverConfig::default()) {
        Ok(_) => panic!("no servers"),
        Err(e) => e,
    };
    assert_eq!(err.to_string(), "no sqns server answered: no sqns servers configured");
    let config = ResolverConfig::default();
    assert_eq!(config.connect_timeout, 10);
    assert_eq!(config.recurse, DEFAULT_RECURSE);
    assert!(config.cache && config.require_dnssec);
    let sk = generate();
    let config = config.with_client_key(&sk);
    assert_eq!(config.client_key_hex, Some(key::hex_seed(&sk)));
}

#[test]
fn an_answer_is_cached_once_it_is_verified() {
    let mut resolver = offline_resolver();
    let service = Service::new();
    let key = service.pubkey();
    let now = now_unix();
    let answer = |record: Option<SignedRecord>| Response::Answer {
        record: record.map(Box::new),
        successor: None,
    };

    assert_eq!(resolver.cached(&key, now), None);
    assert_eq!(resolver.take_answer(&key, answer(None), now).unwrap(), (None, None));
    assert_eq!(resolver.cached(&key, now), Some(None));

    let mut forged = service.live(1);
    tamper_port(&mut forged, 1);
    assert!(resolver.take_answer(&key, answer(Some(forged)), now).is_err());
    assert_eq!(resolver.cached(&key, now), Some(None));

    let record = service.live(2);
    resolver.take_answer(&key, answer(Some(record.clone())), now).unwrap();
    assert_eq!(resolver.cached(&key, now), Some(Some(record)));
    assert_eq!(resolver.cache().len(), 1);
    resolver.forget(&key);
    assert_eq!(resolver.cached(&key, now), None);

    // Another key's record is no answer.
    let err = resolver
        .take_answer(&key, answer(Some(Service::new().live(1))), now)
        .unwrap_err();
    assert!(matches!(err, Error::KeyMismatch { .. }));
    let err = resolver
        .take_answer(&key, Response::error(ErrorCode::RateLimited, "slow down"), now)
        .unwrap_err();
    assert_eq!(err.to_string(), "server error 5: slow down");
    let err = resolver
        .take_answer(&key, Response::Published { serial: 1, expires_at: 2 }, now)
        .unwrap_err();
    assert_eq!(err.to_string(), "protocol error: unexpected response: Published { serial: 1, expires_at: 2 }");
}

#[test]
fn a_retired_key_is_an_error_to_whoever_connects() {
    let service = Service::new();
    assert!(refuse_retired(None).unwrap().is_none());
    assert!(refuse_retired(Some(service.live(1))).unwrap().is_some());
    let err = refuse_retired(Some(service.revoked(1, "gone"))).unwrap_err();
    assert!(matches!(err, Error::Revoked { .. }));
    let err = refuse_retired(Some(service.superseded(1, public_of(&generate())))).unwrap_err();
    assert!(matches!(err, Error::Superseded { .. }));
}

#[test]
fn a_false_successor_is_not_used() {
    let mut resolver = offline_resolver();
    let identity = generate();
    let (old, new) = (Service::under(identity.clone()), Service::under(identity));
    let mut forged = new.live(1);
    tamper_port(&mut forged, 1);
    for wrong in [forged, Service::new().live(1)] {
        let mut walk = ServiceWalk::start(&old.pubkey());
        let found = (Some(old.superseded(1, new.pubkey())), Some(wrong));
        assert_eq!(resolver.step_walk(&mut walk, found, now_unix()).unwrap(), None);
        assert_eq!(walk.current(), new.pubkey());
        assert!(walk.take_prefetched().is_none());
    }
    let mut walk = ServiceWalk::start(&old.pubkey());
    let live = new.live(1);
    let found = (Some(old.superseded(1, new.pubkey())), Some(live.clone()));
    assert_eq!(resolver.step_walk(&mut walk, found, now_unix()).unwrap(), None);
    assert_eq!(walk.take_prefetched(), Some(live));
}

#[test]
fn a_listing_must_stand_on_its_own() {
    let service = Service::new();
    let identity = service.identity_pubkey();
    let list = |records| Response::Records { records, complete: true };
    let now = now_unix();

    let ok = take_identity_listing(&identity, list(vec![service.live(1)]), now).unwrap();
    assert_eq!(ok.len(), 1);
    let stranger = Service::new().live(1);
    let key = stranger.key().to_string();
    let err = take_identity_listing(&identity, list(vec![service.live(1), stranger]), now)
        .unwrap_err();
    assert_eq!(
        err,
        Error::Delegation(format!(
            "{key} was listed under {} but is not issued by it",
            identity.to_string()
        ))
    );
    assert!(take_identity_listing(&identity, Response::error(ErrorCode::Internal, ""), now)
        .is_err());
}

#[test]
fn a_publisher_needs_a_delegation_over_its_key() {
    let service = Service::new();
    let other = generate();
    let err =
        match Publisher::new(other.clone(), service.delegation.clone(), Vec::new(), 300) {
            Ok(_) => panic!("the delegation covers another key"),
            Err(e) => e,
        };
    assert_eq!(
        err,
        Error::Delegation(format!(
            "the delegation over {} is not signed by {}",
            public_of(&other).to_string(),
            service.identity_pubkey().to_string()
        ))
    );
    let mut p = Publisher::new_at(
        service.key.clone(),
        service.delegation.clone(),
        endpoints(),
        25,
        1000,
    )
    .unwrap();
    assert_eq!(p.key(), service.pubkey());
    assert_eq!(p.identity(), service.identity_pubkey());
    assert_eq!((p.ttl(), p.refresh_interval()), (25, 10));
    assert!(p.build_at(1000).is_err(), "the lifetime is too short");

    let mut p = service.publisher(endpoints());
    assert_eq!(p.refresh_interval(), 100);
    let (a, b) = (p.build().unwrap(), p.build().unwrap());
    assert_eq!(a.record.serial + 1, b.record.serial);
    assert!(b.record.supersedes(&a.record));
    p.adopt_network_serial(Some(&service.live(u64::MAX - 5)));
    assert_eq!(p.build().unwrap().record.serial, u64::MAX - 4);
}

// -- Relaying --

#[test]
fn a_leaf_relays_and_stays_a_leaf() {
    let node = Service::new();
    let mut root = start_server();
    Client::of(&mut root).publish(&node.live_at(1, endpoints())).unwrap();

    let up = Upstream::new(vec![root.addr.clone()], true, 0);
    assert_eq!(up.inflight(), 1);
    let mut leaf = start_server_with(true, up);
    let mut above = [Some(root)];
    let ask = |recurse| Request::Lookup { key: node.pubkey(), recurse };

    // With no hops left it answers only for itself.
    let reply = leaf.exchange_with(&ask(0), &mut [], &mut above);
    assert_eq!(reply, Response::Answer { record: None, successor: None });
    assert_eq!(leaf.server.upstream.cached(), 0);

    let reply = leaf.exchange_with(&ask(1), &mut [], &mut above);
    match &reply {
        Response::Answer { record: Some(r), .. } => assert_eq!(r.key(), node.pubkey()),
        other => panic!("{other:?}"),
    }
    // Beside the store and never in it.
    assert_eq!(leaf.server.store.len(), 0);
    assert_eq!(leaf.server.upstream.cached(), 1);
    assert_eq!(leaf.server.store.since(0, 10).0.len(), 0);
    let status = leaf.server.status(0);
    assert_eq!((status.records, status.cached, status.upstreams), (0, 1, 1));

    // From the cache even when nobody above can be reached.
    let again = leaf.exchange_with(&ask(1), &mut [], &mut [None]);
    assert_eq!(again, reply);
    assert_eq!(leaf.server.upstream.purge(now_unix() + 301), 1);
}

#[test]
fn an_outage_is_not_an_absence() {
    let addr = ServerAddr::new("10.0.0.1", 5300, public_of(&generate()));
    let mut leaf = start_server_with(true, Upstream::new(vec![addr.clone()], true, 4));
    let key = public_of(&generate());
    let ask = Request::Lookup { key, recurse: 2 };

    let reply = leaf.exchange_with(&ask, &mut [], &mut [None]);
    assert_eq!(
        reply,
        Response::error(
            ErrorCode::UpstreamFailed,
            &format!(
                "server error 11: no upstream could answer ({}: timed out)",
                addr.to_string()
            )
        )
    );
    assert_eq!(leaf.server.upstream.cached(), 0, "an outage is not remembered");

    let reply = leaf.exchange_with(&ask, &mut [], &mut [Some(start_server())]);
    assert_eq!(reply, Response::Answer { record: None, successor: None });
    assert_eq!(leaf.server.upstream.cached(), 1, "a definite miss is");
}
