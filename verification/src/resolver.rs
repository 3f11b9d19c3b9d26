//! The resolver: look up keys, publish records, talk to several servers.
//!
//! The exchanges themselves happen elsewhere. What is decided here is which
//! request goes out, what a reply is worth, and what to do after it: every
//! answer is checked against the key that was asked for and against what this
//! resolver has already established about it, a chain of rotations is walked
//! one verified hop at a time, and failures of several servers become one.

use vstd::prelude::*;
use vstd::string::*;

use crate::addr::{AddrModel, ServerAddr, addr_models};
use crate::cache::{Cache, EntryModel, asked, cache_hit, hit_model, negative_until};
use crate::error::{Error, ErrorModel, Result, opt_text, outcome};
use crate::key::{PubKey, SigningKey, base58, hex_seed, hex_text, key_len};
use crate::keymap::KeyMap;
use crate::protocol::{
    DEFAULT_RECURSE, Request, RequestModel, Response, ResponseModel, server_error,
};
use crate::record::{
    Record, RecordModel, SignedModel, SignedRecord, answer_verified, is_terminal, retirement_error,
    retirement_of,
};

verus! {

broadcast use key_len;

/// Most supersede hops a lookup will follow before giving up.
pub const MAX_SUPERSEDE_HOPS: usize = 8;

// ---------------------------------------------------------------------------
// Configuration
// ---------------------------------------------------------------------------

/// How a [`Resolver`] reaches its servers.
pub struct ResolverConfig {
    /// Servers to query, in preference order.
    pub servers: Vec<ServerAddr>,
    /// Hex Ed25519 seed for this caller's stable sQUIC identity. Needed when a
    /// server whitelists clients.
    pub client_key_hex: Option<String>,
    /// Handshake timeout per server, in seconds.
    pub connect_timeout: u64,
    /// Cache answers until they expire.
    pub cache: bool,
    /// How many hops a lookup may be forwarded through by servers that do not
    /// hold the key. Zero asks each server for what it holds itself.
    pub recurse: u8,
    /// Whether an `sqns://` address must resolve through a validated DNSSEC
    /// chain. Turning this off is what `--insecure-dns` does.
    pub require_dnssec: bool,
}

/// A [`ResolverConfig`] taken by the views of its parts.
#[verifier::ext_equal]
pub struct ResolverConfigModel {
    pub servers: Seq<AddrModel>,
    pub client_key_hex: Option<Seq<char>>,
    pub connect_timeout: u64,
    pub cache: bool,
    pub recurse: u8,
    pub require_dnssec: bool,
}

impl View for ResolverConfig {
    type V = ResolverConfigModel;

    open spec fn view(&self) -> ResolverConfigModel {
        ResolverConfigModel {
            servers: addr_models(self.servers@),
            client_key_hex: opt_text(self.client_key_hex),
            connect_timeout: self.connect_timeout,
            cache: self.cache,
            recurse: self.recurse,
            require_dnssec: self.require_dnssec,
        }
    }
}

/// A configuration with nothing said: no servers, ten seconds for a handshake,
/// answers cached, the default hop budget, DNSSEC required.
pub open spec fn default_config() -> ResolverConfigModel {
    ResolverConfigModel {
        servers: seq![],
        client_key_hex: None,
        connect_timeout: 10,
        cache: true,
        recurse: DEFAULT_RECURSE,
        require_dnssec: true,
    }
}

impl Default for ResolverConfig {
    fn default() -> (c: Self)
        ensures
            c@ == default_config(),
    {
        let c = ResolverConfig {
            servers: Vec::new(),
            client_key_hex: None,
            connect_timeout: 10,
            cache: true,
            recurse: DEFAULT_RECURSE,
            require_dnssec: true,
        };
        assert(c@ =~= default_config());
        c
    }
}

impl ResolverConfig {
    /// Connect under a stable key.
    pub fn with_client_key(self, sk: &SigningKey) -> (c: Self)
        ensures
            c@ == (ResolverConfigModel { client_key_hex: Some(hex_text(sk@)), ..self@ }),
    {
        ResolverConfig {
            servers: self.servers,
            client_key_hex: Some(hex_seed(sk)),
            connect_timeout: self.connect_timeout,
            cache: self.cache,
            recurse: self.recurse,
            require_dnssec: self.require_dnssec,
        }
    }
}

// ---------------------------------------------------------------------------
// What has been established about a key
// ---------------------------------------------------------------------------

/// How authoritative a record is, for spotting a server walking one backwards.
///
/// Ordered terminal-first, so a retirement outranks every live record and a
/// server can never follow one with anything else.
#[derive(Debug, Clone, Copy, PartialEq, Eq, Structural)]
pub struct Rank {
    pub terminal: bool,
    pub serial: u64,
}

/// The rank of a record.
pub open spec fn rank_of(r: RecordModel) -> Rank {
    Rank { terminal: is_terminal(r), serial: r.serial }
}

/// `a` ranks below `b`.
pub open spec fn ranks_below(a: Rank, b: Rank) -> bool {
    (!a.terminal && b.terminal) || (a.terminal == b.terminal && a.serial < b.serial)
}

impl Rank {
    pub fn of(record: &Record) -> (r: Self)
        ensures
            r == rank_of(record@),
    {
        Rank { terminal: record.is_terminal(), serial: record.serial }
    }

    fn below(&self, other: &Rank) -> (b: bool)
        ensures
            b == ranks_below(*self, *other),
    {
        (!self.terminal && other.terminal) || (self.terminal == other.terminal && self.serial
            < other.serial)
    }
}

/// What a resolver has already established about a key.
#[derive(Clone, Copy)]
pub struct Seen {
    pub rank: Rank,
    /// The identity behind the key. It must never change: a key that suddenly
    /// answers to someone else is a thief who minted their own delegation, not
    /// a rotation. Rotation moves to a *different* key and says so.
    pub identity: PubKey,
}

/// A [`Seen`] with its identity as bytes.
#[verifier::ext_equal]
pub struct SeenModel {
    pub rank: Rank,
    pub identity: Seq<u8>,
}

impl View for Seen {
    type V = SeenModel;

    open spec fn view(&self) -> SeenModel {
        SeenModel { rank: self.rank, identity: self.identity@ }
    }
}

/// What a record establishes about its key.
pub open spec fn seen_in(s: SignedModel) -> SeenModel {
    SeenModel { rank: rank_of(s.record), identity: s.record.delegation.identity }
}

/// A map of marks taken by their views.
pub open spec fn seen_values(m: Map<Seq<u8>, Seen>) -> Map<Seq<u8>, SeenModel> {
    Map::new(|k: Seq<u8>| m.dom().contains(k), |k: Seq<u8>| m[k]@)
}

/// Whether an answer agrees with what has been seen, and what has been seen
/// after it: the identity behind a key never changes, and its rank never goes
/// down.
pub open spec fn rank_noted(marks: Map<Seq<u8>, SeenModel>, s: SignedModel) -> (
    std::result::Result<(), ErrorModel>,
    Map<Seq<u8>, SeenModel>,
) {
    let key = s.record.key;
    let seen = seen_in(s);
    if marks.dom().contains(key) && marks[key].identity != seen.identity {
        (
            Err(
                ErrorModel::Delegation(
                    base58(key) + " was issued by "@ + base58(marks[key].identity)
                        + ", but this answer claims "@ + base58(seen.identity),
                ),
            ),
            marks,
        )
    } else if marks.dom().contains(key) && ranks_below(seen.rank, marks[key].rank) {
        (Err(ErrorModel::Downgrade(base58(key))), marks)
    } else {
        (Ok(()), marks.insert(key, seen))
    }
}

// ---------------------------------------------------------------------------
// The resolver
// ---------------------------------------------------------------------------

/// Resolves public keys to endpoints, and publishes records.
pub struct Resolver {
    config: ResolverConfig,
    cache: Cache,
    /// What has been established about each key, kept whether or not answers
    /// are cached. A server that replays an older record, or hands back one
    /// answering to a different identity, is refused here.
    marks: KeyMap<Seen>,
}

/// What a resolver is made of and has learned.
#[verifier::ext_equal]
pub struct ResolverModel {
    pub config: ResolverConfigModel,
    pub cache: Map<Seq<u8>, EntryModel>,
    pub marks: Map<Seq<u8>, SeenModel>,
}

impl View for Resolver {
    type V = ResolverModel;

    closed spec fn view(&self) -> ResolverModel {
        ResolverModel {
            config: self.config@,
            cache: self.cache@,
            marks: seen_values(self.marks@),
        }
    }
}

/// Records found for a key: its own, and its successor's when that came along.
pub type Found = (Option<SignedRecord>, Option<SignedRecord>);

/// An optional record taken by its view.
pub open spec fn opt_signed(o: Option<SignedRecord>) -> Option<SignedModel> {
    match o {
        Some(s) => Some(s@),
        None => None,
    }
}

/// A result of records found, taken by its view.
pub open spec fn found_outcome(r: Result<Found>) -> std::result::Result<
    (Option<SignedModel>, Option<SignedModel>),
    ErrorModel,
> {
    match r {
        Ok((a, b)) => Ok((opt_signed(a), opt_signed(b))),
        Err(e) => Err(e@),
    }
}

/// The cache with a record in it, if answers are cached.
pub open spec fn cached_found(m: ResolverModel, s: SignedModel) -> Map<Seq<u8>, EntryModel> {
    if m.config.cache {
        m.cache.insert(s.record.key, EntryModel::Found(s))
    } else {
        m.cache
    }
}

/// What the cache says of a key, if answers are cached.
pub open spec fn cached_answer(m: ResolverModel, key: Seq<u8>, now: u64) -> Option<
    Option<SignedModel>,
> {
    if m.config.cache {
        cache_hit(m.cache, key, now)
    } else {
        None
    }
}

/// The request that asks for a key.
pub open spec fn lookup_asked(m: ResolverModel, key: Seq<u8>) -> RequestModel {
    RequestModel::Lookup { key, recurse: m.config.recurse }
}

/// What a reply to a lookup of `key` is worth: its result, and the resolver
/// afterwards.
pub open spec fn answer_taken(m: ResolverModel, key: Seq<u8>, reply: ResponseModel, now: u64) -> (
    std::result::Result<(Option<SignedModel>, Option<SignedModel>), ErrorModel>,
    ResolverModel,
) {
    match reply {
        ResponseModel::Answer { record: Some(s), successor } => if let Err(e) = answer_verified(
            s,
            key,
            now,
        ) {
            (Err(e), m)
        } else {
            match rank_noted(m.marks, s) {
                (Err(e), _) => (Err(e), m),
                (Ok(_), marks) => (
                    Ok((Some(s), successor)),
                    ResolverModel { config: m.config, cache: cached_found(m, s), marks },
                ),
            }
        },
        ResponseModel::Answer { record: None, .. } => (
            Ok((None, None)),
            ResolverModel {
                config: m.config,
                cache: if m.config.cache {
                    m.cache.insert(key, EntryModel::Missing { until: negative_until(now) })
                } else {
                    m.cache
                },
                marks: m.marks,
            },
        ),
        other => (Err(server_error(other)), m),
    }
}

impl Resolver {
    /// The maps are in order.
    pub closed spec fn wf(&self) -> bool {
        self.cache.wf() && self.marks.wf()
    }

    pub fn new(config: ResolverConfig) -> (r: Result<Self>)
        ensures
            match r {
                Ok(s) => config@.servers.len() > 0 && s.wf() && s@ == (ResolverModel {
                    config: config@,
                    cache: Map::empty(),
                    marks: Map::empty(),
                }),
                Err(e) => config@.servers.len() == 0 && e@ == ErrorModel::NoServer(
                    "no sqns servers configured"@,
                ),
            },
    {
        if config.servers.len() == 0 {
            return Err(Error::NoServer(String::from_str("no sqns servers configured")));
        }
        let s = Resolver { config, cache: Cache::new(), marks: KeyMap::new() };
        assert(s@.marks =~= Map::empty());
        Ok(s)
    }

    /// Build a resolver for a single server.
    pub fn single(server: ServerAddr) -> (r: Result<Self>)
        ensures
            r matches Ok(s) && s.wf() && s@ == (ResolverModel {
                config: (ResolverConfigModel { servers: seq![server@], ..default_config() }),
                cache: Map::empty(),
                marks: Map::empty(),
            }),
    {
        let mut servers: Vec<ServerAddr> = Vec::new();
        servers.push(server);
        let base = ResolverConfig::default();
        let config = ResolverConfig {
            servers,
            client_key_hex: base.client_key_hex,
            connect_timeout: base.connect_timeout,
            cache: base.cache,
            recurse: base.recurse,
            require_dnssec: base.require_dnssec,
        };
        assert(config@.servers =~= seq![server@]);
        Self::new(config)
    }

    pub fn servers(&self) -> (v: &[ServerAddr])
        ensures
            addr_models(v@) == self@.config.servers,
    {
        self.config.servers.as_slice()
    }

    pub fn cache(&self) -> (c: &Cache)
        requires
            self.wf(),
        ensures
            c.wf(),
            c@ == self@.cache,
    {
        &self.cache
    }

    pub fn config(&self) -> (c: &ResolverConfig)
        ensures
            c@ == self@.config,
    {
        &self.config
    }

    /// What the cache says of `key` at `now`, if answers are cached.
    pub fn cached(&mut self, key: &PubKey, now: u64) -> (r: Option<Option<SignedRecord>>)
        requires
            old(self).wf(),
        ensures
            final(self).wf(),
            hit_model(r) == cached_answer(old(self)@, key@, now),
            final(self)@ == (ResolverModel {
                cache: if old(self)@.config.cache {
                    asked(old(self)@.cache, key@, now)
                } else {
                    old(self)@.cache
                },
                ..old(self)@
            }),
    {
        if self.config.cache {
            self.cache.get_at(key, now)
        } else {
            None
        }
    }

    /// The request that asks for `key`.
    pub fn lookup_request(&self, key: &PubKey) -> (r: Request)
        ensures
            r@ == lookup_asked(self@, key@),
    {
        Request::Lookup { key: *key, recurse: self.config.recurse }
    }

    /// Record what an answer establishes about a key, refusing anything that
    /// contradicts what this resolver has already seen for it.
    pub fn note_rank(&mut self, record: &SignedRecord) -> (r: Result<()>)
        requires
            old(self).wf(),
        ensures
            final(self).wf(),
            (outcome(r), final(self)@.marks) == rank_noted(old(self)@.marks, record@),
            final(self)@.config == old(self)@.config,
            final(self)@.cache == old(self)@.cache,
    {
        let ghost before = self@.marks;
        let seen = Seen { rank: Rank::of(&record.record), identity: record.identity() };
        let key = record.key();
        if let Some(mark) = self.marks.get(&key) {
            if mark.identity != seen.identity {
                let mut m = key.to_string();
                m.append(" was issued by ");
                m.append(mark.identity.to_string().as_str());
                m.append(", but this answer claims ");
                m.append(seen.identity.to_string().as_str());
                return Err(Error::Delegation(m));
            }
            if seen.rank.below(&mark.rank) {
                return Err(Error::Downgrade(key.to_string()));
            }
        }
        self.marks.insert(key, seen);
        proof {
            assert(seen@ == seen_in(record@));
            assert(self@.marks =~= before.insert(key@, seen@));
        }
        Ok(())
    }

    /// Keep a record, if answers are cached.
    pub(crate) fn cache_found(&mut self, record: &SignedRecord)
        requires
            old(self).wf(),
        ensures
            final(self).wf(),
            final(self)@ == (ResolverModel {
                cache: cached_found(old(self)@, record@),
                ..old(self)@
            }),
    {
        if self.config.cache {
            self.cache.put(record.clone());
        }
    }

    /// Forget what is cached for `key`: it was just published to.
    pub fn forget(&mut self, key: &PubKey)
        requires
            old(self).wf(),
        ensures
            final(self).wf(),
            final(self)@ == (ResolverModel {
                cache: old(self)@.cache.remove(key@),
                ..old(self)@
            }),
    {
        self.cache.invalidate(key);
    }

    /// What a reply to a lookup of `key` is worth.
    ///
    /// An answer is signature-checked against `key`, and held against what is
    /// already known of it, before it is returned or cached, so a server can
    /// withhold an answer but never fabricate one. A successor that came along
    /// is handed on unverified; it is checked against the key the tombstone
    /// names before it is used.
    pub fn take_answer(&mut self, key: &PubKey, reply: Response, now: u64) -> (r: Result<Found>)
        requires
            old(self).wf(),
        ensures
            final(self).wf(),
            (found_outcome(r), final(self)@) == answer_taken(old(self)@, key@, reply@, now),
    {
        let ghost before = self@;
        match reply {
            Response::Answer { record: Some(rec), successor } => {
                let rec = *rec;
                rec.verify_answer(key, now)?;
                self.note_rank(&rec)?;
                self.cache_found(&rec);
                let next = match successor {
                    Some(s) => Some(*s),
                    None => None,
                };
                Ok((Some(rec), next))
            },
            Response::Answer { record: None, successor: _ } => {
                if self.config.cache {
                    self.cache.put_missing_at(*key, now);
                }
                Ok((None, None))
            },
            other => Err(other.into_server_error()),
        }
    }
}

/// A record, unless it retires its key: then the error that says so.
pub open spec fn live_only(r: Option<SignedModel>) -> std::result::Result<
    Option<SignedModel>,
    ErrorModel,
> {
    match r {
        Some(s) => match retirement_of(s.record) {
            Some(e) => Err(e),
            None => Ok(Some(s)),
        },
        None => Ok(None),
    }
}

/// Refuse a key that has been retired, so that a dead key is an error to
/// anything that intends to *connect*, rather than an empty endpoint list.
pub fn refuse_retired(record: Option<SignedRecord>) -> (r: Result<Option<SignedRecord>>)
    ensures
        match r {
            Ok(o) => live_only(opt_signed(record)) == Ok::<Option<SignedModel>, ErrorModel>(
                opt_signed(o),
            ),
            Err(e) => live_only(opt_signed(record)) == Err::<Option<SignedModel>, ErrorModel>(e@),
        },
{
    match record {
        Some(rec) => match retirement_error(&rec) {
            Some(e) => Err(e),
            None => Ok(Some(rec)),
        },
        None => Ok(None),
    }
}

} // verus!
