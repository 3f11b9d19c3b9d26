//! Server addresses: host, port and pinned server key in one string.
//!
//! ```text
//! sqns://ns.example.com/EFj2YJzH6MwVfPnbLdR4SjrUkA9QpXhgK7CcTx31Wm5
//! sqc://ns1.example.com:5300/EFj2YJzH6MwVfPnbLdR4SjrUkA9QpXhgK7CcTx31Wm5
//! sqc://[2001:db8::1]:5300/EFj2YJzH6MwVfPnbLdR4SjrUkA9QpXhgK7CcTx31Wm5
//! ```
//!
//! `sqns://` is the sqns-specific form: the port defaults to 5300 and the
//! hostname must resolve through DNSSEC. `sqc://` is the generic sQUIC form
//! and promises nothing about how the name is resolved.
//!
//! Neither scheme is what makes a connection safe. The key is in the string
//! and sQUIC pins it, so a spoofed DNS answer reaches a host that cannot
//! complete the handshake. DNSSEC protects the pointer, not the identity.

use vstd::prelude::*;
use vstd::string::*;

use crate::error::{Error, ErrorModel, Result, error_text, join2, join3, join4, outcome};
use crate::ip::{parse_ipv4, parse_ipv6, read_ipv4, read_ipv6};
use crate::key::{PubKey, base58, is_base58_char, key_len, parse_key};
use crate::protocol::DEFAULT_PORT;
use crate::text::{
    after_prefix, chars_of, dec, dec_reads_back, dec_value, first_is_find, parse_number, push_dec,
    read_number, split_at_first, split_once, strip_start, text_between, trim, trim_of_tight,
    trimmed,
};

verus! {

broadcast use key_len;

/// How an address was written, which decides how its host is resolved.
#[derive(Debug, Clone, Copy, PartialEq, Eq, Structural)]
pub enum Scheme {
    /// `sqc://`: generic sQUIC. The host is resolved however the system
    /// resolves names, with no assurance attached.
    Sqc,
    /// `sqns://`: an sqns server. The port defaults to 5300 and the host must
    /// resolve through a validated DNSSEC chain.
    Sqns,
}

/// What an address of a scheme starts with.
pub open spec fn scheme_prefix(s: Scheme) -> Seq<char> {
    match s {
        Scheme::Sqc => "sqc://"@,
        Scheme::Sqns => "sqns://"@,
    }
}

impl Scheme {
    pub fn prefix(&self) -> (s: &'static str)
        ensures
            s@ == scheme_prefix(*self),
    {
        match self {
            Scheme::Sqc => "sqc://",
            Scheme::Sqns => "sqns://",
        }
    }

    /// Whether resolving this address demands a validated DNSSEC chain.
    pub fn requires_dnssec(&self) -> (b: bool)
        ensures
            b == (*self is Sqns),
    {
        match self {
            Scheme::Sqc => false,
            Scheme::Sqns => true,
        }
    }
}

/// An sqns server: where to reach it, and the key that proves it is the one.
#[derive(Debug, PartialEq, Eq)]
pub struct ServerAddr {
    pub scheme: Scheme,
    pub host: String,
    pub port: u16,
    pub key: PubKey,
}

/// A [`ServerAddr`] with its host and key as sequences.
#[verifier::ext_equal]
pub struct AddrModel {
    pub scheme: Scheme,
    pub host: Seq<char>,
    pub port: u16,
    pub key: Seq<u8>,
}

impl View for ServerAddr {
    type V = AddrModel;

    open spec fn view(&self) -> AddrModel {
        AddrModel { scheme: self.scheme, host: self.host@, port: self.port, key: self.key@ }
    }
}

impl Clone for ServerAddr {
    fn clone(&self) -> (r: Self)
        ensures
            r@ == self@,
    {
        ServerAddr {
            scheme: self.scheme,
            host: self.host.clone(),
            port: self.port,
            key: self.key,
        }
    }
}

/// The views of a sequence of addresses.
pub open spec fn addr_models(v: Seq<ServerAddr>) -> Seq<AddrModel> {
    Seq::new(v.len(), |i: int| v[i]@)
}

// ---------------------------------------------------------------------------
// Writing
// ---------------------------------------------------------------------------

/// `host:port`, with IPv6 literals bracketed.
pub open spec fn authority_text(host: Seq<char>, port: u16) -> Seq<char> {
    if host.contains(':') {
        "["@ + host + "]:"@ + dec(port as nat)
    } else {
        host + ":"@ + dec(port as nat)
    }
}

/// The authority as a human would write it, leaving out the default port.
pub open spec fn written_text(host: Seq<char>, port: u16) -> Seq<char> {
    if port != DEFAULT_PORT {
        authority_text(host, port)
    } else if host.contains(':') {
        "["@ + host + "]"@
    } else {
        host
    }
}

/// An address as text.
pub open spec fn addr_text(a: AddrModel) -> Seq<char> {
    scheme_prefix(a.scheme) + written_text(a.host, a.port) + "/"@ + base58(a.key)
}

// ---------------------------------------------------------------------------
// Reading
// ---------------------------------------------------------------------------

/// A port out of its text.
pub open spec fn port_parsed(s: Seq<char>) -> std::result::Result<u16, ErrorModel> {
    match parse_number(s, 65535) {
        Some(n) => Ok(n as u16),
        None => Err(ErrorModel::Address("invalid port '"@ + s + "'"@)),
    }
}

/// A host and a port, once the port is known.
pub open spec fn with_port(host: Seq<char>, port: std::result::Result<u16, ErrorModel>) -> std::result::Result<
    (Seq<char>, u16),
    ErrorModel,
> {
    match port {
        Ok(p) => Ok((host, p)),
        Err(e) => Err(e),
    }
}

/// What follows a bracketed host: a colon and a port, or the default port.
pub open spec fn bracketed_port(tail: Seq<char>) -> std::result::Result<u16, ErrorModel> {
    if tail.len() > 0 && tail[0] == ':' {
        port_parsed(tail.subrange(1, tail.len() as int))
    } else {
        Ok(DEFAULT_PORT)
    }
}

/// The parts of `host`, `host:port`, `[v6]` or `[v6]:port`.
pub open spec fn authority_parsed(s: Seq<char>) -> std::result::Result<
    (Seq<char>, u16),
    ErrorModel,
> {
    if s.len() == 0 {
        Err(ErrorModel::Address("empty host"@))
    } else if s[0] == '[' {
        match split_once(s.subrange(1, s.len() as int), ']') {
            None => Err(ErrorModel::Address("unclosed '[' in '"@ + s + "'"@)),
            Some((host, tail)) => with_port(host, bracketed_port(tail)),
        }
    } else {
        match split_once(s, ':') {
            None => Ok((s, DEFAULT_PORT)),
            // A bare IPv6 literal has more than one colon and no port.
            Some((host, rest)) => if rest.contains(':') {
                Ok((s, DEFAULT_PORT))
            } else {
                with_port(host, port_parsed(rest))
            },
        }
    }
}

/// The scheme of a trimmed address, and what follows it. An address without
/// one is generic.
pub open spec fn scheme_parsed(t: Seq<char>) -> (Scheme, Seq<char>) {
    match after_prefix(t, "sqns://"@) {
        Some(rest) => (Scheme::Sqns, rest),
        None => match after_prefix(t, "sqc://"@) {
            Some(rest) => (Scheme::Sqc, rest),
            None => (Scheme::Sqc, t),
        },
    }
}

/// An address out of its text.
pub open spec fn addr_parsed(s: Seq<char>) -> std::result::Result<AddrModel, ErrorModel> {
    let (scheme, rest) = scheme_parsed(trim(s));
    match split_once(rest, '/') {
        None => Err(
            ErrorModel::Address(
                "missing '/<base58 key>' in '"@ + s + "' (want sqns://host/<key>)"@,
            ),
        ),
        Some((authority, key_text)) => if key_text.len() == 0 {
            Err(ErrorModel::Address("no server key in '"@ + s + "'"@))
        } else {
            match parse_key(key_text) {
                Err(e) => Err(
                    ErrorModel::Address("bad server key in '"@ + s + "': "@ + error_text(e)),
                ),
                Ok(key) => match authority_parsed(authority) {
                    Err(e) => Err(e),
                    Ok((host, port)) => Ok(AddrModel { scheme, host, port, key }),
                },
            }
        },
    }
}

/// Whether a text has a character in it.
pub fn has_char(s: &str, c: char) -> (b: bool)
    ensures
        b == s@.contains(c),
{
    let v = chars_of(s);
    let mut i: usize = 0;
    while i < v.len()
        invariant
            i <= v@.len(),
            v@ == s@,
            forall|j: int| 0 <= j < i ==> v@[j] != c,
        decreases v@.len() - i,
    {
        if v[i] == c {
            assert(s@[i as int] == c);
            return true;
        }
        i += 1;
    }
    false
}

fn parse_port(s: &str) -> (r: Result<u16>)
    ensures
        outcome(r) == port_parsed(s@),
{
    match read_number(s, 65535) {
        Some(n) => Ok(n as u16),
        None => Err(Error::Address(join3("invalid port '", s, "'"))),
    }
}

/// Split `host`, `host:port`, `[v6]` or `[v6]:port` into its parts.
pub fn split_authority(authority: &str) -> (r: Result<(String, u16)>)
    ensures
        outcome(r) == authority_parsed(authority@),
{
    if authority.is_empty() {
        return Err(Error::Address(String::from_str("empty host")));
    }
    let v = chars_of(authority);
    if v[0] == '[' {
        let rest = text_between(&v, 1, v.len());
        return match split_at_first(rest.as_str(), ']') {
            None => Err(Error::Address(join3("unclosed '[' in '", authority, "'"))),
            Some((host, tail)) => {
                let t = chars_of(tail.as_str());
                let port: u16 = if t.len() > 0 && t[0] == ':' {
                    parse_port(text_between(&t, 1, t.len()).as_str())?
                } else {
                    DEFAULT_PORT
                };
                Ok((host, port))
            },
        };
    }
    match split_at_first(authority, ':') {
        None => Ok((String::from_str(authority), DEFAULT_PORT)),
        Some((host, rest)) => if has_char(rest.as_str(), ':') {
            Ok((String::from_str(authority), DEFAULT_PORT))
        } else {
            let port: u16 = parse_port(rest.as_str())?;
            Ok((host, port))
        },
    }
}

/// An address that reads back from its text: the host has no slash in it, and
/// neither brackets of its own nor nothing at all.
pub open spec fn addr_readable(a: AddrModel) -> bool {
    &&& a.host.len() > 0
    &&& !a.host.contains('/')
    &&& if a.host.contains(':') {
        !a.host.contains(']')
    } else {
        a.host[0] != '['
    }
}

/// A host and port written by a human's rules read back as they were.
pub proof fn authority_reads_back(host: Seq<char>, port: u16)
    requires
        host.len() > 0,
        if host.contains(':') {
            !host.contains(']')
        } else {
            host[0] != '['
        },
    ensures
        authority_parsed(written_text(host, port)) == Ok::<(Seq<char>, u16), ErrorModel>(
            (host, port),
        ),
{
    let w = written_text(host, port);
    let d = dec(port as nat);
    reveal_strlit("[");
    reveal_strlit("]");
    reveal_strlit("]:");
    reveal_strlit(":");
    dec_reads_back(port as nat);
    assert(parse_number(d, 65535) == Some(port as nat));
    assert forall|i: int| 0 <= i < d.len() implies d[i] != ':' by {
        assert(dec_value(d[i]) is Some);
    }
    if host.contains(':') {
        let inner = w.subrange(1, w.len() as int);
        let n = host.len() as int;
        assert(inner.subrange(0, n) =~= host);
        assert forall|i: int| 0 <= i < n implies inner[i] != ']' by {
            assert(inner[i] == host[i]);
        }
        assert(inner[n] == ']');
        first_is_find(inner, ']', n);
        let tail = inner.subrange(n + 1, inner.len() as int);
        if port != DEFAULT_PORT {
            assert(tail =~= ":"@ + d);
            assert(tail.subrange(1, tail.len() as int) =~= d);
        } else {
            assert(tail =~= seq![]);
        }
    } else {
        let n = host.len() as int;
        assert forall|i: int| 0 <= i < n implies w[i] != ':' by {
            assert(w[i] == host[i]);
        }
        assert(w[0] == host[0]);
        if port != DEFAULT_PORT {
            assert(w[n] == ':');
            first_is_find(w, ':', n);
            assert(w.subrange(0, n) =~= host);
            assert(w.subrange(n + 1, w.len() as int) =~= d);
            assert(!d.contains(':'));
        } else {
            first_is_find(w, ':', n);
        }
    }
}

/// An address text reads back as the address, once its key's text does.
proof fn addr_reads_back(a: AddrModel)
    requires
        addr_readable(a),
        base58(a.key).len() > 0,
        forall|i: int| 0 <= i < base58(a.key).len() ==> is_base58_char(#[trigger] base58(a.key)[i]),
        parse_key(base58(a.key)) == Ok::<Seq<u8>, ErrorModel>(a.key),
    ensures
        addr_parsed(addr_text(a)) == Ok::<AddrModel, ErrorModel>(a),
{
    let k = base58(a.key);
    let p = scheme_prefix(a.scheme);
    let w = written_text(a.host, a.port);
    let t = addr_text(a);
    let d = dec(a.port as nat);
    reveal_strlit("sqc://");
    reveal_strlit("sqns://");
    reveal_strlit("/");
    reveal_strlit("[");
    reveal_strlit("]");
    reveal_strlit("]:");
    reveal_strlit(":");
    assert(t[0] == p[0]);
    assert(t.last() == k.last());
    assert(is_base58_char(k[k.len() - 1]));
    trim_of_tight(t);
    let rest = w + "/"@ + k;
    let n = p.len() as int;
    assert(t.subrange(0, n) =~= p);
    assert(t.subrange(n, t.len() as int) =~= rest);
    if a.scheme is Sqc {
        assert(t.subrange(0, 7)[2] == 'c') by {
            assert(t[2] == p[2]);
        }
        assert("sqns://"@[2] == 'n');
    }
    assert(scheme_parsed(t) == (a.scheme, rest));
    dec_reads_back(a.port as nat);
    assert forall|i: int| 0 <= i < w.len() implies w[i] != '/' by {
        assert forall|j: int| 0 <= j < d.len() implies d[j] != '/' by {
            assert(dec_value(d[j]) is Some);
        }
        assert forall|j: int| 0 <= j < a.host.len() implies a.host[j] != '/' by {
            assert(a.host.contains(a.host[j]));
        }
    }
    let m = w.len() as int;
    assert(rest[m] == '/');
    assert forall|i: int| 0 <= i < m implies rest[i] != '/' by {
        assert(rest[i] == w[i]);
    }
    first_is_find(rest, '/', m);
    assert(rest.subrange(0, m) =~= w);
    assert(rest.subrange(m + 1, rest.len() as int) =~= k);
    authority_reads_back(a.host, a.port);
}

impl ServerAddr {
    /// An `sqc://` address, which carries no promise about name resolution.
    pub fn new(host: &str, port: u16, key: PubKey) -> (a: Self)
        ensures
            a@ == (AddrModel { scheme: Scheme::Sqc, host: host@, port, key: key@ }),
    {
        ServerAddr { scheme: Scheme::Sqc, host: String::from_str(host), port, key }
    }

    /// An `sqns://` address, whose host must resolve through DNSSEC.
    pub fn new_sqns(host: &str, port: u16, key: PubKey) -> (a: Self)
        ensures
            a@ == (AddrModel { scheme: Scheme::Sqns, host: host@, port, key: key@ }),
    {
        ServerAddr { scheme: Scheme::Sqns, host: String::from_str(host), port, key }
    }

    /// True when this host is an IP literal, so no DNS is involved and there
    /// is nothing for DNSSEC to say.
    pub fn is_ip_literal(&self) -> (b: bool)
        ensures
            b == is_ip_text(self@.host),
    {
        read_ipv4(self.host.as_str()).is_some() || read_ipv6(self.host.as_str()).is_some()
    }

    /// `host:port`, with IPv6 literals bracketed: ready for DNS/socket lookup.
    pub fn authority(&self) -> (out: String)
        ensures
            out@ == authority_text(self@.host, self@.port),
    {
        let mut out = if has_char(self.host.as_str(), ':') {
            join3("[", self.host.as_str(), "]:")
        } else {
            join2(self.host.as_str(), ":")
        };
        push_dec(&mut out, self.port as u64);
        out
    }

    /// The authority as a human would write it, leaving out the port when it
    /// is the default. Both schemes parse a missing port as [`DEFAULT_PORT`],
    /// so this round-trips.
    fn written_authority(&self) -> (out: String)
        ensures
            out@ == written_text(self@.host, self@.port),
    {
        if self.port != DEFAULT_PORT {
            return self.authority();
        }
        if has_char(self.host.as_str(), ':') {
            // Keep IPv6 bracketed even without a port, so it stays unambiguous.
            join3("[", self.host.as_str(), "]")
        } else {
            self.host.clone()
        }
    }

    /// Emits the scheme the address carries, so a round trip through a config
    /// file or a log line cannot quietly downgrade an `sqns://` address.
    pub fn to_string(&self) -> (out: String)
        ensures
            out@ == addr_text(self@),
            addr_readable(self@) ==> addr_parsed(out@) == Ok::<AddrModel, ErrorModel>(self@),
    {
        let key = self.key.to_string();
        let out = join4(
            self.scheme.prefix(),
            self.written_authority().as_str(),
            "/",
            key.as_str(),
        );
        proof {
            if addr_readable(self@) {
                addr_reads_back(self@);
            }
        }
        out
    }

    /// Read an address. A bare `host:port/key` is an `sqc://` one.
    pub fn from_str(s: &str) -> (r: Result<Self>)
        ensures
            outcome(r) == addr_parsed(s@),
    {
        let t = trimmed(s);
        let (scheme, rest) = match strip_start(t.as_str(), "sqns://") {
            Some(rest) => (Scheme::Sqns, rest),
            None => match strip_start(t.as_str(), "sqc://") {
                Some(rest) => (Scheme::Sqc, rest),
                None => (Scheme::Sqc, t),
            },
        };
        match split_at_first(rest.as_str(), '/') {
            None => Err(
                Error::Address(
                    join3("missing '/<base58 key>' in '", s, "' (want sqns://host/<key>)"),
                ),
            ),
            Some((authority, key_text)) => {
                if key_text.as_str().is_empty() {
                    return Err(Error::Address(join3("no server key in '", s, "'")));
                }
                match PubKey::from_str(key_text.as_str()) {
                    Err(e) => Err(
                        Error::Address(
                            join4("bad server key in '", s, "': ", e.to_string().as_str()),
                        ),
                    ),
                    Ok(key) => {
                        let (host, port) = split_authority(authority.as_str())?;
                        Ok(ServerAddr { scheme, host, port, key })
                    },
                }
            },
        }
    }
}

/// The text of an IP address.
pub open spec fn is_ip_text(s: Seq<char>) -> bool {
    parse_ipv4(s) is Some || parse_ipv6(s) is Some
}

} // verus!
