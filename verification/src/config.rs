//! Server configuration: a file's values, command line flags, or both.

use std::path::PathBuf;

use vstd::prelude::*;
use vstd::string::*;

use crate::addr::{AddrModel, ServerAddr, addr_models, addr_parsed};
use crate::error::{Error, ErrorModel, Result, join3, join4, opt_text, outcome};
use crate::ip::{IpAddr, parse_ipv4, parse_ipv6, read_ipv4, read_ipv6};
use crate::key::{PubKey, join_path, joined_path, key_len, parse_key};
use crate::protocol::DEFAULT_PORT;
use crate::text::{
    all_dec, chars_of, dec, dec_number, dec_value, parse_number, push_dec, read_number,
    split_at_first, split_once, text_between, texts,
};
use crate::walk::key_seq;

verus! {

broadcast use key_len;

// ---------------------------------------------------------------------------
// Listen addresses
// ---------------------------------------------------------------------------

/// An address and port to listen on.
#[derive(Debug, Clone, Copy, PartialEq, Eq)]
pub struct ListenAddr {
    pub ip: IpAddr,
    pub port: u16,
    /// The scope of a link-local IPv6 address; zero for none.
    pub scope: u32,
}

/// A port written in digits alone.
pub open spec fn plain_number(s: Seq<char>, max: nat) -> Option<nat> {
    if s.len() > 0 && all_dec(s) && dec_number(s) <= max {
        Some(dec_number(s))
    } else {
        None
    }
}

/// An IPv4 socket address: `a.b.c.d:port`.
pub open spec fn socket_v4(s: Seq<char>) -> Option<(Seq<u8>, u16)> {
    match split_once(s, ':') {
        Some((a, p)) => match (parse_ipv4(a), plain_number(p, 65535)) {
            (Some(ip), Some(port)) => Some((ip, port as u16)),
            _ => None,
        },
        None => None,
    }
}

/// An IPv6 address with an optional scope.
pub open spec fn scoped_v6(s: Seq<char>) -> Option<(Seq<u8>, u32)> {
    match split_once(s, '%') {
        Some((a, n)) => match (parse_ipv6(a), plain_number(n, 0xffff_ffff)) {
            (Some(ip), Some(scope)) => Some((ip, scope as u32)),
            _ => None,
        },
        None => match parse_ipv6(s) {
            Some(ip) => Some((ip, 0)),
            None => None,
        },
    }
}

/// An IPv6 socket address: `[address]:port`.
pub open spec fn socket_v6(s: Seq<char>) -> Option<(Seq<u8>, u16, u32)> {
    if s.len() > 0 && s[0] == '[' {
        match split_once(s.subrange(1, s.len() as int), ']') {
            Some((inner, tail)) => if tail.len() > 0 && tail[0] == ':' {
                match (scoped_v6(inner), plain_number(tail.subrange(1, tail.len() as int), 65535)) {
                    (Some((ip, scope)), Some(port)) => Some((ip, port as u16, scope)),
                    _ => None,
                }
            } else {
                None
            },
            None => None,
        }
    } else {
        None
    }
}

/// A [`ListenAddr`] with its address as bytes.
#[verifier::ext_equal]
pub struct ListenModel {
    pub ip: Seq<u8>,
    pub port: u16,
    pub scope: u32,
}

/// The bytes of an IP address.
pub open spec fn ip_bytes(ip: IpAddr) -> Seq<u8> {
    match ip {
        IpAddr::V4(a) => a@,
        IpAddr::V6(a) => a@,
    }
}

impl View for ListenAddr {
    type V = ListenModel;

    open spec fn view(&self) -> ListenModel {
        ListenModel { ip: ip_bytes(self.ip), port: self.port, scope: self.scope }
    }
}

/// The unspecified IPv6 address.
pub open spec fn any_v6() -> Seq<u8> {
    Seq::new(16, |i: int| 0u8)
}

/// A listen address out of its text: a socket address, a bare port, or a bare
/// address with the default port.
pub open spec fn listen_parsed(s: Seq<char>) -> std::result::Result<ListenModel, ErrorModel> {
    if let Some((ip, port)) = socket_v4(s) {
        Ok(ListenModel { ip, port, scope: 0 })
    } else if let Some((ip, port, scope)) = socket_v6(s) {
        Ok(ListenModel { ip, port, scope })
    } else if let Some(port) = parse_number(s, 65535) {
        Ok(ListenModel { ip: any_v6(), port: port as u16, scope: 0 })
    } else if let Some(ip) = parse_ipv4(s) {
        Ok(ListenModel { ip, port: DEFAULT_PORT, scope: 0 })
    } else if let Some(ip) = parse_ipv6(s) {
        Ok(ListenModel { ip, port: DEFAULT_PORT, scope: 0 })
    } else {
        Err(
            ErrorModel::Address(
                "cannot parse listen address '"@ + s + "' (want host:port, an IP, or a port)"@,
            ),
        )
    }
}

fn read_plain(s: &str, max: u64) -> (r: Option<u64>)
    ensures
        match r {
            Some(n) => plain_number(s@, max as nat) == Some(n as nat),
            None => plain_number(s@, max as nat) is None,
        },
{
    let v = chars_of(s);
    if v.len() > 0 && v[0] == '+' {
        proof {
            assert(dec_value(s@[0]) is None);
        }
        return None;
    }
    read_number(s, max)
}

fn read_socket_v4(s: &str) -> (r: Option<([u8; 4], u16)>)
    ensures
        match r {
            Some((a, p)) => socket_v4(s@) == Some((a@, p)),
            None => socket_v4(s@) is None,
        },
{
    match split_at_first(s, ':') {
        Some((a, p)) => match (read_ipv4(a.as_str()), read_plain(p.as_str(), 65535)) {
            (Some(ip), Some(port)) => Some((ip, port as u16)),
            _ => None,
        },
        None => None,
    }
}

fn read_scoped_v6(s: &str) -> (r: Option<([u8; 16], u32)>)
    ensures
        match r {
            Some((a, n)) => scoped_v6(s@) == Some((a@, n)),
            None => scoped_v6(s@) is None,
        },
{
    match split_at_first(s, '%') {
        Some((a, n)) => match (read_ipv6(a.as_str()), read_plain(n.as_str(), 0xffff_ffff)) {
            (Some(ip), Some(scope)) => Some((ip, scope as u32)),
            _ => None,
        },
        None => match read_ipv6(s) {
            Some(ip) => Some((ip, 0)),
            None => None,
        },
    }
}

fn read_socket_v6(s: &str) -> (r: Option<([u8; 16], u16, u32)>)
    ensures
        match r {
            Some((a, p, n)) => socket_v6(s@) == Some((a@, p, n)),
            None => socket_v6(s@) is None,
        },
{
    let v = chars_of(s);
    if v.len() == 0 || v[0] != '[' {
        return None;
    }
    let rest = text_between(&v, 1, v.len());
    match split_at_first(rest.as_str(), ']') {
        Some((inner, tail)) => {
            let t = chars_of(tail.as_str());
            if t.len() == 0 || t[0] != ':' {
                return None;
            }
            let port = text_between(&t, 1, t.len());
            match (read_scoped_v6(inner.as_str()), read_plain(port.as_str(), 65535)) {
                (Some((ip, scope)), Some(port)) => Some((ip, port as u16, scope)),
                _ => None,
            }
        },
        None => None,
    }
}

/// Parse a listen address, defaulting the port and accepting a bare port.
pub fn parse_listen(s: &str) -> (r: Result<ListenAddr>)
    ensures
        outcome(r) == listen_parsed(s@),
{
    if let Some((ip, port)) = read_socket_v4(s) {
        return Ok(ListenAddr { ip: IpAddr::V4(ip), port, scope: 0 });
    }
    if let Some((ip, port, scope)) = read_socket_v6(s) {
        return Ok(ListenAddr { ip: IpAddr::V6(ip), port, scope });
    }
    if let Some(port) = read_number(s, 65535) {
        let any = [0u8;16];
        proof {
            assert(any@ =~= any_v6());
        }
        return Ok(ListenAddr { ip: IpAddr::V6(any), port: port as u16, scope: 0 });
    }
    if let Some(ip) = read_ipv4(s) {
        return Ok(ListenAddr { ip: IpAddr::V4(ip), port: DEFAULT_PORT, scope: 0 });
    }
    if let Some(ip) = read_ipv6(s) {
        return Ok(ListenAddr { ip: IpAddr::V6(ip), port: DEFAULT_PORT, scope: 0 });
    }
    Err(
        Error::Address(
            join3(
                "cannot parse listen address '",
                s,
                "' (want host:port, an IP, or a port)",
            ),
        ),
    )
}

// ---------------------------------------------------------------------------
// Defaults
// ---------------------------------------------------------------------------

/// Where a server listens unless told otherwise: every address, the default
/// port.
pub open spec fn default_listen_text() -> Seq<char> {
    "[::]:"@ + dec(DEFAULT_PORT as nat)
}

pub fn default_listen() -> (out: String)
    ensures
        out@ == default_listen_text(),
{
    let mut out = String::from_str("[::]:");
    push_dec(&mut out, DEFAULT_PORT as u64);
    out
}

pub fn default_sync_interval() -> (n: u64)
    ensures
        n == 60,
{
    60
}

/// Both envelope versions, because retiring one is a deployment's own decision
/// and the default should not make it for them.
pub fn default_envelope_versions() -> (v: Vec<u8>)
    ensures
        v@ == seq![1u8, 2u8],
{
    let mut v: Vec<u8> = Vec::new();
    v.push(1);
    v.push(2);
    assert(v@ =~= seq![1u8, 2u8]);
    v
}

pub fn default_persist_interval() -> (n: u64)
    ensures
        n == 30,
{
    30
}

pub fn default_upstream_timeout() -> (n: u64)
    ensures
        n == 5,
{
    5
}

pub fn default_max_upstream_inflight() -> (n: usize)
    ensures
        n == 64,
{
    64
}

pub fn default_true() -> (b: bool)
    ensures
        b,
{
    true
}

// ---------------------------------------------------------------------------
// Files
// ---------------------------------------------------------------------------

/// The configuration file's values.
pub struct FileConfig {
    /// Address to listen on.
    pub listen: String,
    /// Hex Ed25519 seed for this server's identity.
    pub key_file: PathBuf,
    /// Where records are snapshotted. Omit to keep them in memory only.
    pub state_file: Option<PathBuf>,
    /// Replication peers, as `sqc://host:port/<base58 key>`.
    pub peers: Vec<String>,
    /// Base58 client keys allowed to connect. Empty means anyone holding this
    /// server's public key may connect.
    pub allowed_clients: Vec<String>,
    /// Servers to ask for keys this one does not hold. Distinct from `peers`:
    /// this is one-way resolution, not replication, so a leaf can answer for
    /// the whole network without mirroring it.
    pub upstreams: Vec<String>,
    /// How long to wait on each upstream, in seconds.
    pub upstream_timeout_secs: u64,
    /// Keep relayed answers in memory until they expire. The cache is never
    /// replicated, persisted, or listed under an identity.
    pub upstream_cache: bool,
    /// Most upstream queries in flight at once.
    pub max_upstream_inflight: usize,
    /// Require a validated DNSSEC chain when resolving an `sqns://` peer or
    /// upstream. Turn off only on a network whose resolvers cannot carry it.
    pub require_dnssec: bool,
    /// Answer anti-entropy pulls. Turn off on a server that should not seed
    /// its whole record set to callers.
    pub allow_sync: bool,
    /// How often to pull from each peer, in seconds.
    pub sync_interval_secs: u64,
    /// How often to write the snapshot, in seconds.
    pub persist_interval_secs: u64,
    /// The sQUIC envelope versions this server parses. Narrowing this to `[2]`
    /// retires version 1, after which older clients cannot reach this server
    /// at all.
    pub accepted_envelope_versions: Vec<u8>,
}

/// A [`FileConfig`] taken by the views of its parts.
#[verifier::ext_equal]
pub struct FileConfigModel {
    pub listen: Seq<char>,
    pub key_file: PathBuf,
    pub state_file: Option<PathBuf>,
    pub peers: Seq<Seq<char>>,
    pub allowed_clients: Seq<Seq<char>>,
    pub upstreams: Seq<Seq<char>>,
    pub upstream_timeout_secs: u64,
    pub upstream_cache: bool,
    pub max_upstream_inflight: usize,
    pub require_dnssec: bool,
    pub allow_sync: bool,
    pub sync_interval_secs: u64,
    pub persist_interval_secs: u64,
    pub accepted_envelope_versions: Seq<u8>,
}

impl View for FileConfig {
    type V = FileConfigModel;

    open spec fn view(&self) -> FileConfigModel {
        FileConfigModel {
            listen: self.listen@,
            key_file: self.key_file,
            state_file: self.state_file,
            peers: texts(self.peers@),
            allowed_clients: texts(self.allowed_clients@),
            upstreams: texts(self.upstreams@),
            upstream_timeout_secs: self.upstream_timeout_secs,
            upstream_cache: self.upstream_cache,
            max_upstream_inflight: self.max_upstream_inflight,
            require_dnssec: self.require_dnssec,
            allow_sync: self.allow_sync,
            sync_interval_secs: self.sync_interval_secs,
            persist_interval_secs: self.persist_interval_secs,
            accepted_envelope_versions: self.accepted_envelope_versions@,
        }
    }
}

/// Configuration with everything parsed and resolved. Times are in seconds.
pub struct Config {
    pub listen: ListenAddr,
    pub key_file: PathBuf,
    pub state_file: Option<PathBuf>,
    pub peers: Vec<ServerAddr>,
    pub upstreams: Vec<ServerAddr>,
    pub upstream_timeout: u64,
    pub upstream_cache: bool,
    pub max_upstream_inflight: usize,
    pub allowed_clients: Vec<PubKey>,
    pub require_dnssec: bool,
    pub allow_sync: bool,
    pub sync_interval: u64,
    pub persist_interval: u64,
    pub accepted_envelope_versions: Vec<u8>,
}

/// A [`Config`] taken by the views of its parts.
#[verifier::ext_equal]
pub struct ConfigModel {
    pub listen: ListenModel,
    pub key_file: PathBuf,
    pub state_file: Option<PathBuf>,
    pub peers: Seq<AddrModel>,
    pub upstreams: Seq<AddrModel>,
    pub upstream_timeout: u64,
    pub upstream_cache: bool,
    pub max_upstream_inflight: usize,
    pub allowed_clients: Seq<Seq<u8>>,
    pub require_dnssec: bool,
    pub allow_sync: bool,
    pub sync_interval: u64,
    pub persist_interval: u64,
    pub accepted_envelope_versions: Seq<u8>,
}

impl View for Config {
    type V = ConfigModel;

    open spec fn view(&self) -> ConfigModel {
        ConfigModel {
            listen: self.listen@,
            key_file: self.key_file,
            state_file: self.state_file,
            peers: addr_models(self.peers@),
            upstreams: addr_models(self.upstreams@),
            upstream_timeout: self.upstream_timeout,
            upstream_cache: self.upstream_cache,
            max_upstream_inflight: self.max_upstream_inflight,
            allowed_clients: key_seq(self.allowed_clients@),
            require_dnssec: self.require_dnssec,
            allow_sync: self.allow_sync,
            sync_interval: self.sync_interval,
            persist_interval: self.persist_interval,
            accepted_envelope_versions: self.accepted_envelope_versions@,
        }
    }
}

/// Addresses out of their texts, up to the first that cannot be read.
pub open spec fn addrs_parsed(v: Seq<Seq<char>>) -> std::result::Result<Seq<AddrModel>, ErrorModel>
    decreases v.len(),
{
    if v.len() == 0 {
        Ok(seq![])
    } else {
        match addrs_parsed(v.drop_last()) {
            Err(e) => Err(e),
            Ok(done) => match addr_parsed(v.last()) {
                Err(e) => Err(e),
                Ok(a) => Ok(done.push(a)),
            },
        }
    }
}

proof fn addrs_stuck(v: Seq<Seq<char>>, k: int)
    requires
        0 <= k <= v.len(),
        addrs_parsed(v.subrange(0, k)) is Err,
    ensures
        addrs_parsed(v) == addrs_parsed(v.subrange(0, k)),
    decreases v.len(),
{
    if k < v.len() {
        assert(v.drop_last().subrange(0, k) =~= v.subrange(0, k));
        addrs_stuck(v.drop_last(), k);
    } else {
        assert(v.subrange(0, k) =~= v);
    }
}

/// Read addresses, up to the first that cannot be read.
pub fn parse_addrs(v: &Vec<String>) -> (r: Result<Vec<ServerAddr>>)
    ensures
        match r {
            Ok(a) => addrs_parsed(texts(v@)) == Ok::<Seq<AddrModel>, ErrorModel>(addr_models(a@)),
            Err(e) => addrs_parsed(texts(v@)) == Err::<Seq<AddrModel>, ErrorModel>(e@),
        },
{
    let ghost all = texts(v@);
    let mut out: Vec<ServerAddr> = Vec::new();
    let mut i: usize = 0;
    proof {
        assert(all.subrange(0, 0) =~= seq![]);
        assert(addr_models(out@) =~= seq![]);
    }
    while i < v.len()
        invariant
            i <= v@.len(),
            all == texts(v@),
            addrs_parsed(all.subrange(0, i as int)) == Ok::<Seq<AddrModel>, ErrorModel>(
                addr_models(out@),
            ),
        decreases v@.len() - i,
    {
        proof {
            let done = all.subrange(0, i + 1);
            assert(done.drop_last() =~= all.subrange(0, i as int));
            assert(done.last() == v@[i as int]@);
        }
        match ServerAddr::from_str(v[i].as_str()) {
            Ok(a) => {
                let ghost before = addr_models(out@);
                out.push(a);
                proof {
                    assert(addr_models(out@) =~= before.push(a@));
                }
            },
            Err(e) => {
                proof {
                    addrs_stuck(all, i + 1);
                }
                return Err(e);
            },
        }
        i += 1;
    }
    proof {
        assert(all.subrange(0, i as int) =~= all);
    }
    Ok(out)
}

/// Keys out of their texts, up to the first that cannot be read.
pub open spec fn keys_parsed(v: Seq<Seq<char>>) -> std::result::Result<Seq<Seq<u8>>, ErrorModel>
    decreases v.len(),
{
    if v.len() == 0 {
        Ok(seq![])
    } else {
        match keys_parsed(v.drop_last()) {
            Err(e) => Err(e),
            Ok(done) => match parse_key(v.last()) {
                Err(e) => Err(e),
                Ok(k) => Ok(done.push(k)),
            },
        }
    }
}

proof fn keys_stuck(v: Seq<Seq<char>>, k: int)
    requires
        0 <= k <= v.len(),
        keys_parsed(v.subrange(0, k)) is Err,
    ensures
        keys_parsed(v) == keys_parsed(v.subrange(0, k)),
    decreases v.len(),
{
    if k < v.len() {
        assert(v.drop_last().subrange(0, k) =~= v.subrange(0, k));
        keys_stuck(v.drop_last(), k);
    } else {
        assert(v.subrange(0, k) =~= v);
    }
}

fn parse_keys(v: &Vec<String>) -> (r: Result<Vec<PubKey>>)
    ensures
        match r {
            Ok(a) => keys_parsed(texts(v@)) == Ok::<Seq<Seq<u8>>, ErrorModel>(key_seq(a@)),
            Err(e) => keys_parsed(texts(v@)) == Err::<Seq<Seq<u8>>, ErrorModel>(e@),
        },
{
    let ghost all = texts(v@);
    let mut out: Vec<PubKey> = Vec::new();
    let mut i: usize = 0;
    proof {
        assert(all.subrange(0, 0) =~= seq![]);
        assert(key_seq(out@) =~= seq![]);
    }
    while i < v.len()
        invariant
            i <= v@.len(),
            all == texts(v@),
            keys_parsed(all.subrange(0, i as int)) == Ok::<Seq<Seq<u8>>, ErrorModel>(
                key_seq(out@),
            ),
        decreases v@.len() - i,
    {
        proof {
            let done = all.subrange(0, i + 1);
            assert(done.drop_last() =~= all.subrange(0, i as int));
            assert(done.last() == v@[i as int]@);
        }
        match PubKey::from_str(v[i].as_str()) {
            Ok(k) => {
                let ghost before = key_seq(out@);
                out.push(k);
                proof {
                    assert(key_seq(out@) =~= before.push(k@));
                }
            },
            Err(e) => {
                proof {
                    keys_stuck(all, i + 1);
                }
                return Err(e);
            },
        }
        i += 1;
    }
    proof {
        assert(all.subrange(0, i as int) =~= all);
    }
    Ok(out)
}

/// The larger of two numbers.
pub open spec fn at_least(n: u64, low: u64) -> u64 {
    if n < low {
        low
    } else {
        n
    }
}

fn or_more(n: u64, low: u64) -> (r: u64)
    ensures
        r == at_least(n, low),
{
    if n < low {
        low
    } else {
        n
    }
}

/// Version 0 is reserved and must never be emitted, and an empty set would
/// silently refuse every caller.
pub open spec fn versions_usable(v: Seq<u8>) -> bool {
    v.len() > 0 && !v.contains(0)
}

/// A file's values parsed and resolved: lengths of time kept above what makes
/// sense, addresses and keys read, envelope versions checked.
pub open spec fn config_resolved(f: FileConfigModel) -> std::result::Result<
    ConfigModel,
    ErrorModel,
> {
    match listen_parsed(f.listen) {
        Err(e) => Err(e),
        Ok(listen) => match addrs_parsed(f.peers) {
            Err(e) => Err(e),
            Ok(peers) => match addrs_parsed(f.upstreams) {
                Err(e) => Err(e),
                Ok(upstreams) => match keys_parsed(f.allowed_clients) {
                    Err(e) => Err(e),
                    Ok(allowed_clients) => if !versions_usable(f.accepted_envelope_versions) {
                        Err(
                            ErrorModel::Protocol(
                                "accepted_envelope_versions must be a non-empty list without 0"@,
                            ),
                        )
                    } else {
                        Ok(
                            ConfigModel {
                                listen,
                                key_file: f.key_file,
                                state_file: f.state_file,
                                peers,
                                upstreams,
                                upstream_timeout: at_least(f.upstream_timeout_secs, 1),
                                upstream_cache: f.upstream_cache,
                                max_upstream_inflight: if f.max_upstream_inflight < 1 {
                                    1
                                } else {
                                    f.max_upstream_inflight
                                },
                                allowed_clients,
                                require_dnssec: f.require_dnssec,
                                allow_sync: f.allow_sync,
                                sync_interval: at_least(f.sync_interval_secs, 5),
                                persist_interval: at_least(f.persist_interval_secs, 1),
                                accepted_envelope_versions: f.accepted_envelope_versions,
                            },
                        )
                    },
                },
            },
        },
    }
}

fn has_zero(v: &Vec<u8>) -> (b: bool)
    ensures
        b == v@.contains(0),
{
    let mut i: usize = 0;
    while i < v.len()
        invariant
            i <= v@.len(),
            forall|j: int| 0 <= j < i ==> v@[j] != 0,
        decreases v@.len() - i,
    {
        if v[i] == 0 {
            assert(v@[i as int] == 0);
            return true;
        }
        i += 1;
    }
    false
}

impl FileConfig {
    /// What a server is configured with when there is no file.
    pub fn defaults(key_file: PathBuf, state_file: Option<PathBuf>) -> (f: Self)
        ensures
            f@ == (FileConfigModel {
                listen: default_listen_text(),
                key_file,
                state_file,
                peers: seq![],
                allowed_clients: seq![],
                upstreams: seq![],
                upstream_timeout_secs: 5,
                upstream_cache: true,
                max_upstream_inflight: 64,
                require_dnssec: true,
                allow_sync: true,
                sync_interval_secs: 60,
                persist_interval_secs: 30,
                accepted_envelope_versions: seq![1u8, 2u8],
            }),
    {
        let f = FileConfig {
            listen: default_listen(),
            key_file,
            state_file,
            peers: Vec::new(),
            allowed_clients: Vec::new(),
            upstreams: Vec::new(),
            upstream_timeout_secs: default_upstream_timeout(),
            upstream_cache: default_true(),
            max_upstream_inflight: default_max_upstream_inflight(),
            require_dnssec: default_true(),
            allow_sync: default_true(),
            sync_interval_secs: default_sync_interval(),
            persist_interval_secs: default_persist_interval(),
            accepted_envelope_versions: default_envelope_versions(),
        };
        proof {
            assert(f@.peers =~= seq![]);
            assert(f@.allowed_clients =~= seq![]);
            assert(f@.upstreams =~= seq![]);
        }
        f
    }

    pub fn resolve(self) -> (r: Result<Config>)
        ensures
            outcome(r) == config_resolved(self@),
    {
        let listen = parse_listen(self.listen.as_str())?;
        let peers = parse_addrs(&self.peers)?;
        let upstreams = parse_addrs(&self.upstreams)?;
        let allowed_clients = parse_keys(&self.allowed_clients)?;
        if self.accepted_envelope_versions.len() == 0 || has_zero(
            &self.accepted_envelope_versions,
        ) {
            return Err(
                Error::Protocol(
                    String::from_str(
                        "accepted_envelope_versions must be a non-empty list without 0",
                    ),
                ),
            );
        }
        Ok(
            Config {
                listen,
                key_file: self.key_file,
                state_file: self.state_file,
                peers,
                upstreams,
                upstream_timeout: or_more(self.upstream_timeout_secs, 1),
                upstream_cache: self.upstream_cache,
                max_upstream_inflight: if self.max_upstream_inflight < 1 {
                    1
                } else {
                    self.max_upstream_inflight
                },
                allowed_clients,
                require_dnssec: self.require_dnssec,
                allow_sync: self.allow_sync,
                sync_interval: or_more(self.sync_interval_secs, 5),
                persist_interval: or_more(self.persist_interval_secs, 1),
                accepted_envelope_versions: self.accepted_envelope_versions,
            },
        )
    }
}

// ---------------------------------------------------------------------------
// Flags
// ---------------------------------------------------------------------------

/// What the command line says about the configuration.
pub struct Flags {
    pub listen: Option<String>,
    pub key_file: Option<PathBuf>,
    pub state_file: Option<PathBuf>,
    pub peers: Vec<String>,
    pub upstreams: Vec<String>,
    pub no_sync: bool,
    pub insecure_dns: bool,
}

/// A [`Flags`] taken by the views of its parts.
#[verifier::ext_equal]
pub struct FlagsModel {
    pub listen: Option<Seq<char>>,
    pub key_file: Option<PathBuf>,
    pub state_file: Option<PathBuf>,
    pub peers: Seq<Seq<char>>,
    pub upstreams: Seq<Seq<char>>,
    pub no_sync: bool,
    pub insecure_dns: bool,
}

impl View for Flags {
    type V = FlagsModel;

    open spec fn view(&self) -> FlagsModel {
        FlagsModel {
            listen: opt_text(self.listen),
            key_file: self.key_file,
            state_file: self.state_file,
            peers: texts(self.peers@),
            upstreams: texts(self.upstreams@),
            no_sync: self.no_sync,
            insecure_dns: self.insecure_dns,
        }
    }
}

/// A configuration with the flags merged into it; flags win, and the peers and
/// upstreams they name come after the configured ones.
pub open spec fn flags_applied(c: ConfigModel, f: FlagsModel) -> std::result::Result<
    ConfigModel,
    ErrorModel,
> {
    match (match f.listen {
        Some(s) => listen_parsed(s),
        None => Ok(c.listen),
    }) {
        Err(e) => Err(e),
        Ok(listen) => match addrs_parsed(f.peers) {
            Err(e) => Err(e),
            Ok(peers) => match addrs_parsed(f.upstreams) {
                Err(e) => Err(e),
                Ok(upstreams) => Ok(
                    ConfigModel {
                        listen,
                        key_file: match f.key_file {
                            Some(p) => p,
                            None => c.key_file,
                        },
                        state_file: match f.state_file {
                            Some(p) => Some(p),
                            None => c.state_file,
                        },
                        peers: c.peers + peers,
                        upstreams: c.upstreams + upstreams,
                        allow_sync: c.allow_sync && !f.no_sync,
                        require_dnssec: c.require_dnssec && !f.insecure_dns,
                        ..c
                    },
                ),
            },
        },
    }
}

fn append_addrs(to: &mut Vec<ServerAddr>, from: Vec<ServerAddr>)
    ensures
        addr_models(final(to)@) == addr_models(old(to)@) + addr_models(from@),
{
    let ghost before = to@;
    let mut from = from;
    let ghost added = from@;
    to.append(&mut from);
    assert(addr_models(to@) =~= addr_models(before) + addr_models(added));
}

impl Config {
    /// Merge command line flags into this configuration; flags win.
    pub fn with_flags(self, flags: Flags) -> (r: Result<Config>)
        ensures
            outcome(r) == flags_applied(self@, flags@),
    {
        let mut c = self;
        if let Some(listen) = &flags.listen {
            c.listen = parse_listen(listen.as_str())?;
        }
        if let Some(key_file) = flags.key_file {
            c.key_file = key_file;
        }
        if let Some(state_file) = flags.state_file {
            c.state_file = Some(state_file);
        }
        let peers = parse_addrs(&flags.peers)?;
        append_addrs(&mut c.peers, peers);
        let upstreams = parse_addrs(&flags.upstreams)?;
        append_addrs(&mut c.upstreams, upstreams);
        if flags.no_sync {
            c.allow_sync = false;
        }
        if flags.insecure_dns {
            c.require_dnssec = false;
        }
        Ok(c)
    }
}

// ---------------------------------------------------------------------------
// Places
// ---------------------------------------------------------------------------

/// Where the configuration comes from.
#[derive(Debug, Clone, Copy, PartialEq, Eq, Structural)]
pub enum ConfigSource {
    /// The file the command line names.
    Given,
    /// The system's own file.
    System,
    /// No file.
    Defaults,
}

/// Where the configuration comes from. With no file named, a system file is
/// still picked up if one is there, so an installed server behaves the same
/// whether or not its service manager passes the flag.
pub fn config_source(given: bool, system_exists: bool) -> (s: ConfigSource)
    ensures
        s == (if given {
            ConfigSource::Given
        } else if system_exists {
            ConfigSource::System
        } else {
            ConfigSource::Defaults
        }),
{
    if given {
        ConfigSource::Given
    } else if system_exists {
        ConfigSource::System
    } else {
        ConfigSource::Defaults
    }
}

/// System-wide locations, used when running as root.
pub const SYSTEM_CONFIG: &'static str = "/etc/sqns/sqnsd.toml";

pub const SYSTEM_KEY: &'static str = "/etc/sqns/sqnsd.key";

pub const SYSTEM_STATE: &'static str = "/var/lib/sqns/records.db";

/// Per-user locations, used otherwise.
pub const USER_KEY: &'static str = "sqnsd.key";

pub const USER_STATE: &'static str = "records.db";

/// Where the key and the snapshot live when nothing says otherwise, as path
/// bytes: system paths for root, the sqns directory for everyone else.
pub fn default_paths(root: bool, sqns_dir: &[u8]) -> (r: (Vec<u8>, Vec<u8>))
    ensures
        r.0@ == (if root {
            SYSTEM_KEY.spec_bytes()
        } else {
            joined_path(sqns_dir@, USER_KEY.spec_bytes())
        }),
        r.1@ == (if root {
            SYSTEM_STATE.spec_bytes()
        } else {
            joined_path(sqns_dir@, USER_STATE.spec_bytes())
        }),
{
    if root {
        (
            vstd::slice::slice_to_vec(SYSTEM_KEY.as_bytes()),
            vstd::slice::slice_to_vec(SYSTEM_STATE.as_bytes()),
        )
    } else {
        (
            join_path(sqns_dir, USER_KEY.as_bytes()),
            join_path(sqns_dir, USER_STATE.as_bytes()),
        )
    }
}

/// What to do about the server's key.
#[derive(Debug, Clone, Copy, PartialEq, Eq, Structural)]
pub enum KeyPlan {
    /// Load the one that is there.
    Load,
    /// Make one: this is a first run.
    Create,
}

impl View for KeyPlan {
    type V = KeyPlan;

    open spec fn view(&self) -> KeyPlan {
        *self
    }
}

/// What to do about the server's key.
///
/// A key file named explicitly on the command line must already exist: a
/// mistyped path should fail loudly, not quietly bring up a server under an
/// identity no client has ever heard of.
pub fn plan_key(path: &str, exists: bool, explicit: bool) -> (r: Result<KeyPlan>)
    ensures
        outcome(r) == (if exists {
            Ok(KeyPlan::Load)
        } else if explicit {
            Err(
                ErrorModel::Key(
                    "no key at "@ + path@ + " — generate one with: sqnsd keygen --out "@ + path@,
                ),
            )
        } else {
            Ok(KeyPlan::Create)
        }),
{
    if exists {
        Ok(KeyPlan::Load)
    } else if explicit {
        Err(
            Error::Key(
                join4("no key at ", path, " — generate one with: sqnsd keygen --out ", path),
            ),
        )
    } else {
        Ok(KeyPlan::Create)
    }
}

} // verus!
