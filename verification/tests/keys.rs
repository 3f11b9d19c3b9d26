//! Keys, seeds, addresses and texts on known values.

use sqns::addr::{split_authority, Scheme, ServerAddr};
use sqns::endpoint::{Endpoint, Host};
use sqns::error::Error;
use sqns::ip::{read_ipv4, read_ipv6, write_ipv4, write_ipv6, IpAddr};
use sqns::key::{
    check_private, default_path, generate, hex_seed, join_path, load_secret, public_of,
    secret_file_text, secret_from_hex, sqns_dir, PubKey, SigningKey,
};
use sqns::order::stable_order;
use sqns::record::{now_unix, unix_seconds};
use sqns::text::{
    dec_text, find_from, join_all, push_hex_digits, push_hex_prefixed, push_octal, read_number,
    same_text, split_all, split_at_first, strip_start, trimmed,
};

const SEED: &str = "9d61b19deffd5a60ba844af492ec2cc44449c5697b326919703bac031cae7f60";
const PUBLIC: &str = "d75a980182b10ab7d54bfed3c964073a0ee172f3daa62325af021a68f707511a";
const SIGNATURE: &str = "e5564300c360ac729086e2cc806e828a84877f1eb8e5d974d873e065224901555fb8821590a33bacc61e39701cf9b46bd25bf5f0595bbe24655141438e7a100b";

#[test]
fn a_known_seed_has_its_key_and_signature() {
    let sk = secret_from_hex(SEED).unwrap();
    assert_eq!(hex_seed(&sk), SEED);
    let key = public_of(&sk);
    assert_eq!(key.to_hex(), PUBLIC);
    let signature = sk.sign(b"");
    assert_eq!(hex::encode(signature), SIGNATURE);

    let vk = key.verifying_key().unwrap();
    assert_eq!(vk.to_bytes(), key.to_bytes());
    assert!(PubKey::from(vk) == key);
    assert!(vk.verify(b"", &signature));
    assert!(!vk.verify(b"x", &signature));
    let mut spoiled = signature;
    spoiled[0] ^= 1;
    assert!(!vk.verify(b"", &spoiled));
}

#[test]
fn generated_keys_differ() {
    assert!(public_of(&generate()) != public_of(&generate()));
    let sk = generate();
    assert_eq!(SigningKey::from_bytes(&sk.to_bytes()).to_bytes(), sk.to_bytes());
    assert!(public_of(&sk.clone()) == public_of(&sk));
}

#[test]
fn a_clock_before_the_epoch_reads_zero() {
    assert_eq!(unix_seconds(Some(1_700_000_000)), 1_700_000_000);
    assert_eq!(unix_seconds(None), 0);
    assert!(now_unix() > 1_600_000_000);
}

#[test]
fn known_keys_in_text() {
    let zero = PubKey::new([0; 32]);
    assert_eq!(zero.to_base58(), "1".repeat(32));
    assert_eq!(zero.to_string(), "1".repeat(32));
    assert_eq!(zero.short(), "11111111");
    assert_eq!(zero.to_hex(), "0".repeat(64));
    let mut one = [0; 32];
    one[31] = 58;
    assert_eq!(PubKey::new(one).to_base58(), format!("{}21", "1".repeat(31)));
    assert_eq!(PubKey::new(one).as_bytes(), &one);
    assert!(zero.before(&PubKey::new(one)));
    assert!(!PubKey::new(one).before(&zero));
    assert!(!zero.before(&zero));

    let key = PubKey::from_str(&format!("  {PUBLIC}\n")).unwrap();
    assert!(PubKey::from_str(&key.to_base58()).unwrap() == key);
    assert!(PubKey::from_hex(&PUBLIC.to_uppercase()).unwrap() == key);
}

#[test]
fn what_is_no_key_says_why() {
    let text = |r: Result<PubKey, Error>| match r {
        Ok(_) => panic!("no key"),
        Err(e) => e.to_string(),
    };
    assert_eq!(
        text(PubKey::from_str("0OIl")),
        "base58 decode error: provided string contained invalid character '0' at byte 0"
    );
    assert_eq!(
        text(PubKey::from_str("11")),
        "invalid key: public key must be 32 bytes, got 2"
    );
    assert_eq!(
        text(PubKey::from_hex("zz")),
        "invalid key: bad hex: Invalid character 'z' at position 0"
    );
    assert_eq!(text(PubKey::from_hex("abc")), "invalid key: bad hex: Odd number of digits");
    assert_eq!(
        text(PubKey::from_hex("ab")),
        "invalid key: public key must be 32 bytes, got 1"
    );
    let mut bytes = [0; 32];
    bytes[0] = 2;
    assert_eq!(
        PubKey::new(bytes).verifying_key().unwrap_err().to_string(),
        "invalid key: not a valid Ed25519 public key: signature error: Cannot decompress Edwards point"
    );
}

#[test]
fn seeds_are_read_strictly() {
    let text = |r: Result<SigningKey, Error>| match r {
        Ok(_) => panic!("no seed"),
        Err(e) => e.to_string(),
    };
    assert_eq!(
        text(secret_from_hex("abcd")),
        "invalid key: private seed must be 32 bytes (64 hex chars), got 2"
    );
    assert_eq!(
        text(secret_from_hex("xy")),
        "invalid key: private seed is not valid hex: Invalid character 'x' at position 0"
    );

    let sk = secret_from_hex(SEED).unwrap();
    let file = secret_file_text(&sk);
    assert_eq!(file, format!("{SEED}\n"));
    assert_eq!(load_secret("k", 0o100600, &file).unwrap().to_bytes(), sk.to_bytes());
    assert_eq!(load_secret("k", 0o400, &file).unwrap().to_bytes(), sk.to_bytes());
    for mode in [0o644, 0o640, 0o601, 0o100660] {
        assert!(load_secret("k", mode, &file).is_err());
    }
    assert_eq!(
        check_private("my.key", 0o100644).unwrap_err().to_string(),
        "invalid key: my.key is group/world accessible (mode 644); run: chmod 600 my.key"
    );
    assert!(check_private("my.key", 0o600).is_ok());
}

#[test]
fn the_directory_can_be_moved() {
    let moved: &[u8] = b"/srv/keys";
    let home: &[u8] = b"/home/me";
    assert_eq!(sqns_dir(Some(moved), Some(home)).unwrap(), b"/srv/keys");
    assert_eq!(sqns_dir(Some(b""), Some(home)).unwrap(), b"/home/me/.sqns");
    assert_eq!(sqns_dir(None, Some(home)).unwrap(), b"/home/me/.sqns");
    assert_eq!(
        sqns_dir(None, None).unwrap_err().to_string(),
        "invalid key: could not determine your home directory"
    );
    assert_eq!(
        default_path(None, Some(home), "identity.key").unwrap(),
        b"/home/me/.sqns/identity.key"
    );
    assert_eq!(default_path(Some(b"/a/"), None, "b").unwrap(), b"/a/b");
    assert_eq!(join_path(b"/a", b"/b"), b"/b");
    assert_eq!(join_path(b"", b"b"), b"b");
}

#[test]
fn ipv4_addresses_in_text() {
    assert_eq!(read_ipv4("127.0.0.1"), Some([127, 0, 0, 1]));
    assert_eq!(read_ipv4("255.255.255.255"), Some([255; 4]));
    for bad in ["", "1.2.3", "1.2.3.4.5", "256.0.0.1", "01.2.3.4", "1..2.3", "1.2.3.4 ", "+1.2.3.4"]
    {
        assert_eq!(read_ipv4(bad), None, "{bad}");
    }
    assert_eq!(write_ipv4(&[10, 0, 200, 7]), "10.0.200.7");
}

#[test]
fn ipv6_addresses_in_text() {
    let known: [([u8; 16], &str); 7] = [
        ([0; 16], "::"),
        ([0, 0, 0, 0, 0, 0, 0, 0, 0, 0, 0, 0, 0, 0, 0, 1], "::1"),
        ([0x20, 1, 0xd, 0xb8, 0, 0, 0, 0, 0, 0, 0, 0, 0, 0, 0, 5], "2001:db8::5"),
        ([0x20, 1, 0xd, 0xb8, 0, 0, 0, 1, 0, 0, 0, 0, 0, 2, 0, 3], "2001:db8:0:1::2:3"),
        ([0xfe, 0x80, 0, 0, 0, 0, 0, 0, 0, 0, 0, 0, 0, 0, 0, 0], "fe80::"),
        ([0, 1, 0, 2, 0, 3, 0, 4, 0, 5, 0, 6, 0, 7, 0xff, 0xff], "1:2:3:4:5:6:7:ffff"),
        ([0, 0, 0, 0, 0, 0, 0, 0, 0, 0, 0xff, 0xff, 192, 0, 2, 33], "::ffff:192.0.2.33"),
    ];
    for (bytes, text) in known {
        assert_eq!(write_ipv6(&bytes), text);
        assert_eq!(read_ipv6(text), Some(bytes), "{text}");
    }
    let also: [(&str, [u8; 16], &str); 5] = [
        (
            "1:2:3:4:5:6:1.2.3.4",
            [0, 1, 0, 2, 0, 3, 0, 4, 0, 5, 0, 6, 1, 2, 3, 4],
            "1:2:3:4:5:6:102:304",
        ),
        (
            "64:ff9b::192.0.2.1",
            [0, 0x64, 0xff, 0x9b, 0, 0, 0, 0, 0, 0, 0, 0, 192, 0, 2, 1],
            "64:ff9b::c000:201",
        ),
        ("1::", [0, 1, 0, 0, 0, 0, 0, 0, 0, 0, 0, 0, 0, 0, 0, 0], "1::"),
        ("0:0:0:0:0:0:0:1", [0, 0, 0, 0, 0, 0, 0, 0, 0, 0, 0, 0, 0, 0, 0, 1], "::1"),
        ("ABCD::", [0xab, 0xcd, 0, 0, 0, 0, 0, 0, 0, 0, 0, 0, 0, 0, 0, 0], "abcd::"),
    ];
    for (text, bytes, canonical) in also {
        assert_eq!(read_ipv6(text), Some(bytes), "{text}");
        assert_eq!(write_ipv6(&bytes), canonical);
    }
    for text in [
        "",
        ":",
        ":::",
        "1:2:3:4:5:6:7",
        "1:2:3:4:5:6:7:8:9",
        "1::2::3",
        "12345::",
        "g::",
        "::1%1",
        "1:2:3:4:5:6:7:1.2.3.4",
        "1:2:3:4:5:6:7:8::",
        "[::1]",
    ] {
        assert_eq!(read_ipv6(text), None, "{text}");
    }
}

#[test]
fn hosts_and_endpoints_in_text() {
    assert_eq!(Host::from_str("10.0.0.1").unwrap(), Host::V4([10, 0, 0, 1]));
    assert!(Host::from_str("[::1]").unwrap().is_ipv6());
    assert_eq!(Host::from_str("example.com").unwrap(), Host::Name("example.com".to_string()));
    assert_eq!(Host::from(IpAddr::V4([1, 2, 3, 4])), Host::V4([1, 2, 3, 4]));
    assert_eq!(Host::V4([1, 2, 3, 4]).ip(), Some(IpAddr::V4([1, 2, 3, 4])));
    assert_eq!(Host::Name("a".to_string()).ip(), None);

    let e = Endpoint::new(Host::from_str("2001:db8::5").unwrap(), 443);
    assert_eq!(e.authority(), "[2001:db8::5]:443");
    assert_eq!((e.priority, e.weight), (0, 1));
    let e = Endpoint::new(Host::Name("h".to_string()), 1).with_priority(3).with_weight(4);
    assert_eq!(e.to_string(), "h:1 priority=3 weight=4");
    assert_eq!(Endpoint::from_str("name").unwrap().authority(), "name:5300");
    for (text, why) in [
        ("", "malformed record: bad endpoint '': invalid sqc:// address: empty host"),
        ("h:x", "malformed record: bad endpoint 'h:x': invalid sqc:// address: invalid port 'x'"),
        ("h:1,prio", "malformed record: expected key=value, got 'prio'"),
        ("h:1,p=70000", "malformed record: '70000' is not a 0..=65535 value"),
        ("h:1,z=1", "malformed record: unknown endpoint option 'z' (want priority= or weight=)"),
        ("a b:1", "malformed record: invalid host name 'a b'"),
    ] {
        assert_eq!(Endpoint::from_str(text).unwrap_err().to_string(), why);
    }
    assert_eq!(
        Host::from_str("[x]").unwrap_err().to_string(),
        "malformed record: bad IPv6 literal 'x': invalid IPv6 address syntax"
    );
    assert_eq!(
        Host::from_str(" ").unwrap_err().to_string(),
        "malformed record: host name must be 1..=255 bytes, got 0"
    );
}

#[test]
fn server_addresses_round_trip() {
    let key = PubKey::from_str(PUBLIC).unwrap();
    for host in ["example.com", "127.0.0.1", "2001:db8::5"] {
        for a in [ServerAddr::new(host, 5300, key), ServerAddr::new_sqns(host, 1, key)] {
            let back = ServerAddr::from_str(&a.to_string()).unwrap();
            assert_eq!(back.to_string(), a.to_string());
            assert_eq!(back.host, a.host);
            assert_eq!(back.port, a.port);
            assert_eq!(back.scheme.prefix(), a.scheme.prefix());
            assert!(back.key == a.key);
        }
    }
    let a = ServerAddr::new("2001:db8::5", 5300, key);
    assert_eq!(a.authority(), "[2001:db8::5]:5300");
    assert!(a.is_ip_literal());
    assert_eq!(a.to_string(), format!("sqc://[2001:db8::5]/{}", key.to_base58()));
    let b = ServerAddr::new("h", 9, key);
    assert_eq!(b.to_string(), format!("sqc://h:9/{}", key.to_base58()));
    assert!(Scheme::Sqns.requires_dnssec());
    assert!(!Scheme::Sqc.requires_dnssec());
    assert_eq!(Scheme::Sqns.prefix(), "sqns://");

    let public = ServerAddr::from_str(sqns::DEFAULT_SERVER).unwrap();
    assert_eq!((public.host.as_str(), public.port), ("ns.squic.org", 5300));
    assert_eq!(public.to_string(), sqns::DEFAULT_SERVER);

    assert_eq!(split_authority("h:9").unwrap(), ("h".to_string(), 9));
    assert_eq!(split_authority("h").unwrap(), ("h".to_string(), sqns::DEFAULT_PORT));
    assert!(matches!(split_authority("h:x"), Err(Error::Address(_))));
    for bad in ["http://h/K", "sqc://h", "sqc://h:1/", "sqc:///K"] {
        assert!(ServerAddr::from_str(bad).is_err(), "{bad}");
    }
}

#[test]
fn numbers_and_pieces_of_text() {
    assert_eq!(dec_text(0), "0");
    assert_eq!(dec_text(u64::MAX), "18446744073709551615");
    let mut s = String::new();
    push_hex_digits(&mut s, 0xbeef);
    s.push(' ');
    push_hex_prefixed(&mut s, 0x2a);
    s.push(' ');
    push_octal(&mut s, 0o755);
    assert_eq!(s, "beef 0x2a 755");

    assert_eq!(read_number("+7", 10), Some(7));
    assert_eq!(read_number("007", 10), Some(7));
    for bad in ["", "+", "-1", "11", "1x", " 1", "99999999999999999999999"] {
        assert_eq!(read_number(bad, 10), None, "{bad}");
    }
    assert_eq!(read_number("18446744073709551615", u64::MAX), Some(u64::MAX));
    assert_eq!(read_number("18446744073709551616", u64::MAX), None);

    assert_eq!(trimmed(" \t\u{a0}a b\u{2003}\n"), "a b");
    assert!(same_text("a", "a") && !same_text("a", "ab"));
    assert_eq!(split_at_first("a=b=c", '='), Some(("a".to_string(), "b=c".to_string())));
    assert_eq!(split_at_first("abc", '='), None);
    assert_eq!(split_all("a,,b", ','), vec!["a", "", "b"]);
    assert_eq!(split_all("", ','), vec![""]);
    assert_eq!(strip_start("sqc://x", "sqc://"), Some("x".to_string()));
    assert_eq!(strip_start("x", "sqc://"), None);
    assert_eq!(join_all(&["a".to_string(), "b".to_string()], "; "), "a; b");
    assert_eq!(find_from(&['a', 'b', 'a'], 1, 'a'), 2);
    assert_eq!(find_from(&['a'], 0, 'z'), 1);
}

#[test]
fn endpoints_read_back_from_their_authority() {
    for host in [
        Host::V4([192, 0, 2, 1]),
        Host::from_str("::").unwrap(),
        Host::from_str("::ffff:1.2.3.4").unwrap(),
        Host::from_str("1:0:0:2::3").unwrap(),
        Host::Name("a.example".to_string()),
    ] {
        let e = Endpoint::new(host.clone(), 443);
        assert_eq!(Endpoint::from_str(&e.authority()).unwrap(), e);
        assert_eq!(Host::from_str(&host.to_string()).unwrap(), host);
    }
}

#[test]
fn every_failure_reads_as_what_it_is() {
    let t = || "x".to_string();
    for (e, text) in [
        (Error::Io(t()), "I/O error: x"),
        (Error::Key(t()), "invalid key: x"),
        (Error::Base58Decode(t()), "base58 decode error: x"),
        (Error::Protocol(t()), "protocol error: x"),
        (Error::Record(t()), "malformed record: x"),
        (Error::Signature(t()), "signature verification failed: x"),
        (Error::Expired(7), "record has expired (expired 7s ago)"),
        (
            Error::KeyMismatch { asked: t(), got: "y".to_string() },
            "record key mismatch: asked for x, server answered for y",
        ),
        (Error::Address(t()), "invalid sqc:// address: x"),
        (
            Error::Revoked { key: t(), successor: None, reason: "y".to_string() },
            "key x is revoked: y",
        ),
        (
            Error::Superseded { key: t(), successor: "y".to_string() },
            "key x was superseded by y",
        ),
        (Error::SupersedeChain(t()), "supersede chain: x"),
        (
            Error::Downgrade(t()),
            "refusing a downgrade for x: a newer authority for this key was already seen",
        ),
        (Error::Delegation(t()), "delegation error: x"),
        (Error::Unpublished(t()), "no record published for x"),
        (Error::Connection(t()), "connection error: x"),
        (Error::NoServer(t()), "no sqns server answered: x"),
        (Error::Server { code: 4, message: t() }, "server error 4: x"),
    ] {
        assert_eq!(e.to_string(), text);
    }
}

#[test]
fn ordering_is_stable() {
    assert_eq!(stable_order(&[3, 1, 3, 2, 1]), vec![1, 4, 3, 0, 2]);
    assert!(stable_order(&[]).is_empty());
}
