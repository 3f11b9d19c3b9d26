//! Server configuration, client decisions, dialing and printed lines.

use std::path::PathBuf;

use sqns::addr::ServerAddr;
use sqns::client_config::{
    build_config, check_confirmation, check_overwrite, choose_expiry, delegate, missing_delegation,
    missing_key, names_a_file, nothing_named, read_pubkey, revoke_record, revoke_targets,
    supersede_record, KeyFile,
};
use sqns::config::{
    config_source, default_paths, parse_listen, plan_key, Config, ConfigSource, FileConfig, Flags,
    KeyPlan, ListenAddr,
};
use sqns::delegation::{Delegation, NEVER_EXPIRES};
use sqns::dial::{
    no_addresses, plan_dial, plan_resolution, take_validated, unreachable_server, DialAttempt,
    DnsAnswer, ResolvePlan,
};
use sqns::endpoint::{Endpoint, Host};
use sqns::error::Error;
use sqns::ip::IpAddr;
use sqns::key::{generate, public_of, secret_file_text, PubKey};
use sqns::link::{LinkOutcome, LinkRequest, LinkTask};
use sqns::protocol::{Response, StatusInfo};
use sqns::record::{Record, SignedRecord};
use sqns::report::{
    delegated_lines, describe_state, format_duration, identity_lines, keygen_lines, location_lines,
    published_lines, record_lines, revoke_warning_lines, rotation_notice, server_keygen_lines,
    status_lines, superseded_lines, withdrew_line,
};
use sqns::server::connection_string;
use sqns::walk::ServiceLocation;

fn v6(last: u8) -> [u8; 16] {
    let mut a = [0; 16];
    a[15] = last;
    a
}

#[test]
fn listen_addresses_parse() {
    let at = |ip, port, scope| ListenAddr { ip, port, scope };
    for (text, want) in [
        ("127.0.0.1:7", at(IpAddr::V4([127, 0, 0, 1]), 7, 0)),
        ("[::1]:7", at(IpAddr::V6(v6(1)), 7, 0)),
        ("[::1%3]:7", at(IpAddr::V6(v6(1)), 7, 3)),
        ("5400", at(IpAddr::V6(v6(0)), 5400, 0)),
        ("10.1.2.3", at(IpAddr::V4([10, 1, 2, 3]), 5300, 0)),
        ("::1", at(IpAddr::V6(v6(1)), 5300, 0)),
    ] {
        assert_eq!(parse_listen(text).unwrap(), want, "{text}");
    }
    for bad in ["", "localhost:1", "65536", "1.2.3.4:", "1.2.3.4:+7", "[::1]", "[::1]:x"] {
        assert_eq!(
            parse_listen(bad).unwrap_err(),
            Error::Address(format!(
                "cannot parse listen address '{bad}' (want host:port, an IP, or a port)"
            ))
        );
    }
}

fn defaults() -> FileConfig {
    FileConfig::defaults(PathBuf::from("k"), Some(PathBuf::from("s")))
}

fn flags() -> Flags {
    Flags {
        listen: None,
        key_file: None,
        state_file: None,
        peers: Vec::new(),
        upstreams: Vec::new(),
        no_sync: false,
        insecure_dns: false,
    }
}

fn refusal(r: Result<Config, Error>) -> Error {
    match r {
        Ok(_) => panic!("must be refused"),
        Err(e) => e,
    }
}

#[test]
fn a_configuration_is_resolved() {
    let c = match defaults().resolve() {
        Ok(c) => c,
        Err(e) => panic!("{}", e.to_string()),
    };
    assert_eq!(c.listen, ListenAddr { ip: IpAddr::V6(v6(0)), port: 5300, scope: 0 });
    assert_eq!(c.key_file, PathBuf::from("k"));
    assert_eq!(c.state_file, Some(PathBuf::from("s")));
    assert!(c.peers.is_empty() && c.upstreams.is_empty() && c.allowed_clients.is_empty());
    assert_eq!((c.upstream_timeout, c.sync_interval, c.persist_interval), (5, 60, 30));
    assert_eq!(c.max_upstream_inflight, 64);
    assert!(c.upstream_cache && c.require_dnssec && c.allow_sync);
    assert_eq!(c.accepted_envelope_versions, vec![1, 2]);

    let key = public_of(&generate());
    let mut f = defaults();
    f.upstream_timeout_secs = 0;
    f.sync_interval_secs = 1;
    f.persist_interval_secs = 0;
    f.max_upstream_inflight = 0;
    f.peers = vec![ServerAddr::new("a", 1, key).to_string()];
    f.allowed_clients = vec![key.to_hex()];
    let c = match f.resolve() {
        Ok(c) => c,
        Err(e) => panic!("{}", e.to_string()),
    };
    assert_eq!((c.upstream_timeout, c.sync_interval, c.persist_interval), (1, 5, 1));
    assert_eq!(c.max_upstream_inflight, 1);
    assert_eq!(c.peers[0].host, "a");
    assert!(c.allowed_clients[0] == key);

    for versions in [vec![], vec![2, 0]] {
        let mut f = defaults();
        f.accepted_envelope_versions = versions;
        assert_eq!(
            refusal(f.resolve()),
            Error::Protocol(
                "accepted_envelope_versions must be a non-empty list without 0".to_string()
            )
        );
    }
    let mut f = defaults();
    f.upstreams = vec!["nonsense".to_string()];
    assert!(matches!(refusal(f.resolve()), Error::Address(_)));
}

#[test]
fn flags_win() {
    let key = public_of(&generate());
    let mut f = defaults();
    f.peers = vec![ServerAddr::new("a", 1, key).to_string()];
    let base = f.resolve().ok().unwrap();
    let c = base
        .with_flags(Flags {
            listen: Some("7".to_string()),
            key_file: Some(PathBuf::from("other")),
            peers: vec![ServerAddr::new("b", 2, key).to_string()],
            no_sync: true,
            insecure_dns: true,
            ..flags()
        })
        .ok()
        .unwrap();
    assert_eq!(c.listen.port, 7);
    assert_eq!(c.key_file, PathBuf::from("other"));
    assert_eq!(c.state_file, Some(PathBuf::from("s")));
    let hosts: Vec<&str> = c.peers.iter().map(|p| p.host.as_str()).collect();
    assert_eq!(hosts, vec!["a", "b"]);
    assert!(!c.allow_sync && !c.require_dnssec);

    let c = c.with_flags(flags()).ok().unwrap();
    assert!(!c.allow_sync && !c.require_dnssec);
    assert!(matches!(
        refusal(c.with_flags(Flags { listen: Some("x".to_string()), ..flags() })),
        Error::Address(_)
    ));
}

#[test]
fn places_and_keys_are_planned() {
    assert_eq!(config_source(true, true), ConfigSource::Given);
    assert_eq!(config_source(false, true), ConfigSource::System);
    assert_eq!(config_source(false, false), ConfigSource::Defaults);
    let (key, state) = default_paths(false, b"/d");
    assert_eq!((&key[..], &state[..]), (&b"/d/sqnsd.key"[..], &b"/d/records.db"[..]));
    let (key, state) = default_paths(true, b"/d");
    assert_eq!(key, b"/etc/sqns/sqnsd.key");
    assert_eq!(state, b"/var/lib/sqns/records.db");

    assert_eq!(plan_key("p", true, true).unwrap(), KeyPlan::Load);
    assert_eq!(plan_key("p", false, false).unwrap(), KeyPlan::Create);
    assert_eq!(
        plan_key("p", false, true).unwrap_err().to_string(),
        "invalid key: no key at p — generate one with: sqnsd keygen --out p"
    );
}

#[test]
fn a_client_is_configured() {
    let key = public_of(&generate());
    let spec = ServerAddr::new("a", 1, key).to_string();
    let sk = generate();
    let c = build_config(&vec![spec.clone()], Some(&sk), 3, true, true).ok().unwrap();
    assert_eq!(c.servers[0].to_string(), spec);
    assert_eq!(c.client_key_hex, Some(sqns::key::hex_seed(&sk)));
    assert_eq!((c.connect_timeout, c.recurse), (3, 0));
    assert!(!c.cache && !c.require_dnssec);
    let c = build_config(&vec![spec], None, 10, false, false).ok().unwrap();
    assert_eq!(c.recurse, 4);
    assert!(c.require_dnssec);
    assert!(build_config(&vec!["x".to_string()], None, 10, false, false).is_err());
}

#[test]
fn keys_on_the_command_line() {
    let sk = generate();
    let key = public_of(&sk);
    assert!(read_pubkey(&key.to_base58(), None).unwrap() == key);
    let file = |mode| Some(KeyFile { mode, text: secret_file_text(&sk) });
    assert!(read_pubkey("my.key", file(0o600)).unwrap() == key);
    assert!(read_pubkey("my.key", file(0o644)).is_err());
    assert_eq!(
        read_pubkey("my.key", None).unwrap_err().to_string(),
        "invalid key: 'my.key' is neither a base58 public key nor an existing file"
    );
    assert!(names_a_file("my.key"));
    assert!(!names_a_file(&key.to_hex()));
    assert_eq!(
        missing_key("p", "sqns keygen").to_string(),
        "invalid key: no key at p — create one with: sqns keygen"
    );
    assert_eq!(
        missing_delegation("p").to_string(),
        "delegation error: no delegation at p — create one with: sqns delegate"
    );
    assert!(check_overwrite("p", false, false).is_ok());
    assert!(check_overwrite("p", true, true).is_ok());
    assert_eq!(
        check_overwrite("p", true, false).unwrap_err().to_string(),
        "invalid key: p already exists; pass --force to overwrite it"
    );
    assert!(check_confirmation(" revoke\n").is_ok());
    assert_eq!(
        check_confirmation("yes").unwrap_err().to_string(),
        "invalid key: revocation cancelled"
    );
    assert!(matches!(nothing_named(), Error::Key(_)));
}

#[test]
fn delegations_last_as_asked() {
    assert_eq!(choose_expiry(1, false, 1000).unwrap(), 87_400);
    assert_eq!(choose_expiry(365, false, 0).unwrap(), 31_536_000);
    assert_eq!(choose_expiry(0, true, 1000).unwrap(), NEVER_EXPIRES);
    for days in [0, 366, u64::MAX] {
        assert_eq!(
            choose_expiry(days, false, 0).unwrap_err().to_string(),
            "delegation error: delegation must last 1..=365 days, or pass --never-expires"
        );
    }
    let identity = generate();
    let service = public_of(&generate());
    let f = delegate(&identity, &service, 90, false, 1000).ok().unwrap();
    assert!(f.service_key == service);
    assert_eq!(f.delegation.not_after, 7_777_000);
    assert!(f.delegation.verify(&service).is_ok());
    let own = match delegate(&identity, &public_of(&identity), 90, false, 1000) {
        Ok(_) => panic!("a key is not its own identity"),
        Err(e) => e,
    };
    assert_eq!(
        own.to_string(),
        "delegation error: a key cannot be its own identity: generate a separate service key"
    );
}

#[test]
fn retirements_are_signed_by_the_identity() {
    let identity = generate();
    let (old, new) = (public_of(&generate()), public_of(&generate()));
    let s = supersede_record(&identity, &old, &new, "rotated", 1000).unwrap();
    assert!(s.verify().is_ok());
    assert_eq!((s.record.serial, s.record.issued_at), (1000, 1000));
    assert_eq!(s.record.delegation.not_after, 7_777_000);
    assert!(s.record.successor() == Some(new));
    let r = revoke_record(&identity, &old, "gone", 1000).unwrap();
    assert!(r.verify().is_ok() && r.record.is_revoked());

    let sk = generate();
    let live = live_record(&identity, &sk, vec![]);
    let targets = revoke_targets(&vec![s, live, r]);
    assert_eq!(targets.len(), 1);
    assert!(targets[0] == public_of(&sk));
}

fn live_record(
    identity: &sqns::key::SigningKey,
    sk: &sqns::key::SigningKey,
    endpoints: Vec<Endpoint>,
) -> SignedRecord {
    let d = Delegation::issue(identity, &public_of(sk), 100_000);
    Record::live_at(public_of(sk), d, 7, 300, endpoints, 1000).sign(sk).unwrap()
}

// -- Dialing --

#[test]
fn names_are_resolved_as_their_scheme_says() {
    let key = public_of(&generate());
    let plan = |a: ServerAddr, strict| plan_resolution(&a, strict);
    assert_eq!(plan(ServerAddr::new("h", 1, key), true), ResolvePlan::System);
    assert_eq!(plan(ServerAddr::new_sqns("1.2.3.4", 1, key), true), ResolvePlan::System);
    assert_eq!(plan(ServerAddr::new_sqns("h", 1, key), true), ResolvePlan::Validated);
    assert_eq!(
        plan(ServerAddr::new_sqns("h", 1, key), false),
        ResolvePlan::SystemInsteadOfDnssec
    );
}

#[test]
fn an_ip_literal_needs_no_dns_at_all() {
    let key = public_of(&generate());
    let addr = ServerAddr::from_str(&format!("sqns://192.0.2.7/{}", key.to_string())).unwrap();
    // There is no name here to validate.
    assert_eq!(plan_resolution(&addr, true), ResolvePlan::System);
    assert_eq!(addr.authority(), "192.0.2.7:5300");
}

#[test]
fn only_signed_answers_are_used() {
    let ip = |n| Some(IpAddr::V4([10, 0, 0, n]));
    let answer = |is_address, secure, ip| DnsAnswer { is_address, secure, ip };
    let mixed = vec![
        answer(false, true, None),
        answer(true, false, ip(1)),
        answer(true, true, ip(2)),
        answer(true, true, ip(3)),
    ];
    assert_eq!(
        take_validated("h", &mixed).unwrap(),
        vec![IpAddr::V4([10, 0, 0, 2]), IpAddr::V4([10, 0, 0, 3])]
    );
    assert_eq!(
        take_validated("h", &vec![answer(true, false, ip(1)), answer(false, false, None)])
            .unwrap_err()
            .to_string(),
        "invalid sqc:// address: h resolved, but the answer is not signed (DNSSEC proof was not \
         Secure for 1 record(s)). An sqns:// address requires a signed zone: use sqc:// instead, \
         or allow insecure DNS."
    );
    assert_eq!(
        take_validated("h", &vec![]).unwrap_err(),
        Error::Address("h resolved to no addresses".to_string())
    );
}

#[test]
fn a_stale_connection_is_dialed_again_once() {
    let ok = || Ok(Response::Published { serial: 1, expires_at: 2 });
    let bad = |m: &str| Err(Error::Connection(m.to_string()));

    let mut r = LinkRequest::start(true);
    assert_eq!(r.task(), LinkTask::Exchange);
    assert!(matches!(r.exchanged(ok()), LinkOutcome::Answered(_)));

    let mut r = LinkRequest::start(true);
    assert_eq!(r.exchanged(bad("stale")), LinkOutcome::Redial);
    assert_eq!(r.task(), LinkTask::Dial);
    r.dialed();
    assert_eq!(r.task(), LinkTask::Exchange);
    assert_eq!(
        r.exchanged(bad("down")),
        LinkOutcome::Failed(Error::Connection("down".to_string()))
    );

    let mut r = LinkRequest::start(false);
    assert_eq!(r.task(), LinkTask::Dial);
    r.dialed();
    assert!(matches!(r.exchanged(ok()), LinkOutcome::Answered(_)));
}

#[test]
fn attempts_are_staggered() {
    let at = |index, delay_ms| DialAttempt { index, delay_ms };
    assert_eq!(plan_dial(&vec![true, false, true]), vec![at(0, 0), at(2, 250)]);
    assert_eq!(plan_dial(&vec![false, false, false]), vec![at(0, 0), at(1, 250), at(2, 500)]);
    assert!(plan_dial(&vec![]).is_empty());
    assert_eq!(
        no_addresses("h:1").to_string(),
        "connection error: h:1 resolved to no addresses"
    );
    let addr = ServerAddr::new("h", 1, public_of(&generate()));
    assert_eq!(
        unreachable_server(&addr, &vec!["a".to_string(), "b".to_string()]),
        Error::Connection(format!("could not reach {}: a; b", addr.to_string()))
    );
}

// -- Lines --

#[test]
fn durations_in_two_units() {
    for (secs, text) in [
        (0, "0s"),
        (59, "59s"),
        (60, "1m0s"),
        (3599, "59m59s"),
        (3600, "1h0m"),
        (86_399, "23h59m"),
        (90_000, "1d1h"),
    ] {
        assert_eq!(format_duration(secs), text);
    }
}

#[test]
fn a_record_is_shown() {
    let identity = generate();
    let sk = generate();
    let (id, key) = (public_of(&identity).to_string(), public_of(&sk).to_string());
    let head = vec![
        format!("key:      {key}"),
        format!("identity: {id}"),
        "serial:   7".to_string(),
        "issued:   60s ago".to_string(),
    ];
    let e = Endpoint::new(Host::V4([1, 2, 3, 4]), 443);
    let live = live_record(&identity, &sk, vec![e]);
    assert_eq!(
        record_lines(&live, 1060),
        [
            &head[..],
            &[
                "expires:  in 4m0s (ttl 300s)".to_string(),
                "delegation: valid for another 1d3h".to_string(),
                "endpoints:".to_string(),
                format!("  {:<40} priority={:<5} weight={}", "1.2.3.4:443", 0, 1),
            ][..]
        ]
        .concat()
    );
    assert_eq!(describe_state(&live), "live, 1 endpoint(s)");
    let gone = live_record(&identity, &sk, vec![]);
    assert_eq!(record_lines(&gone, 1060)[6], "endpoints: none — this key is withdrawn");
    assert_eq!(describe_state(&gone), "withdrawn");

    let key = public_of(&sk);
    let r = revoke_record(&identity, &key, "stolen", 1000).unwrap();
    assert_eq!(
        record_lines(&r, 1000)[4..],
        [
            "status:   REVOKED — this key is permanently dead".to_string(),
            "reason:   stolen".to_string()
        ]
    );
    assert_eq!(describe_state(&r), "revoked (stolen)");
    let new = public_of(&generate());
    let s = supersede_record(&identity, &key, &new, "rotated", 1000).unwrap();
    assert_eq!(
        record_lines(&s, 1000)[4..6],
        [
            "status:   SUPERSEDED — this key is retired (rotated)".to_string(),
            format!("now use:  {}", new.to_string())
        ]
    );
    assert_eq!(describe_state(&s), format!("superseded by {}", new.to_string()));

    let listed = identity_lines(&public_of(&identity), &vec![r]);
    assert_eq!(
        listed,
        vec![
            format!("{id} has issued 1 service key(s):"),
            format!("  {}  revoked (stolen)", key.to_string()),
        ]
    );
    assert_eq!(
        identity_lines(&public_of(&identity), &vec![]),
        vec![format!("{id} has no service keys on this server")]
    );
}

#[test]
fn counters_are_shown() {
    let mut info = StatusInfo {
        records: 3,
        cached: 2,
        peers: 1,
        upstreams: 0,
        uptime_secs: 61,
        version: "0.1.0".to_string(),
    };
    assert_eq!(
        status_lines(&info),
        vec!["version:   0.1.0", "records:   3", "peers:     1", "uptime:    1m1s"]
    );
    info.upstreams = 2;
    assert_eq!(
        status_lines(&info)[3..5],
        ["upstreams: 2".to_string(), "cached:    2 (relayed, not replicated)".to_string()]
    );
}

fn location(requested: PubKey, key: PubKey, endpoints: Vec<Endpoint>) -> ServiceLocation {
    ServiceLocation { requested, key, identity: key, endpoints, superseded_from: Vec::new() }
}

#[test]
fn locations_are_shown() {
    let (a, b) = (public_of(&generate()), public_of(&generate()));
    let e = Endpoint::new(Host::Name("h".to_string()), 443);
    assert_eq!(location_lines(&location(a, a, vec![e])).unwrap(), vec!["h:443"]);
    assert_eq!(
        location_lines(&location(a, a, vec![])).unwrap_err(),
        Error::Unpublished(format!("{} (withdrawn)", a.to_string()))
    );
    assert_eq!(rotation_notice(&location(a, a, vec![])), None);
    assert_eq!(
        rotation_notice(&location(a, b, vec![])),
        Some(format!(
            "sqns: {} has been rotated; it now resolves to {}",
            a.to_string(),
            b.to_string()
        ))
    );
}

#[test]
fn commands_report_what_they_did() {
    let (a, b) = (public_of(&generate()), public_of(&generate()));
    let (ta, tb) = (a.to_string(), b.to_string());
    assert_eq!(
        published_lines(&a, &b, 5, 300),
        vec![
            format!("published {ta} serial 5, expires in 300s"),
            format!("  issued by identity {tb}"),
        ]
    );
    assert_eq!(withdrew_line(&a, 6), format!("withdrew {ta} serial 6"));
    assert_eq!(
        superseded_lines(&a, &b)[..2],
        [format!("superseded {ta}"), format!("       now {tb}")]
    );
    assert_eq!(
        revoke_warning_lines(&vec![a, b])[..3],
        [
            "This permanently revokes 2 service key(s):".to_string(),
            format!("  {ta}"),
            format!("  {tb}")
        ]
    );
    assert_eq!(keygen_lines("p", &a, false).len(), 2);
    assert_eq!(
        keygen_lines("p", &a, true)[..2],
        ["private key: p".to_string(), format!("public key:  {ta}")]
    );
    assert_eq!(
        server_keygen_lines("p", &a)[2],
        format!("connect as:  sqc://<host>:5300/{ta}")
    );
    assert_eq!(delegated_lines("p", &a, &b, 90, false)[3], "valid for:   90 days");
    assert_eq!(delegated_lines("p", &a, &b, 90, true)[3], "valid for:   forever");
    assert_eq!(connection_string("[::]:5300", &a), format!("sqc://[::]:5300/{ta}"));
}
