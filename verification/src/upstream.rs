//! Asking other servers for keys this one does not hold.
//!
//! A server with upstreams configured stops being limited to what was published
//! to it: on a miss it forwards the question and relays the answer. The client
//! verifies the record's own signature, so a relaying server cannot alter an
//! answer, substitute endpoints, or invent a key. Its only power stays the one
//! it already had: withholding.
//!
//! Relayed answers are cached beside the store, never in it. They are not
//! offered in `Sync`, not persisted, and not listed under their identity, so a
//! leaf pointed upstream stays a leaf instead of quietly becoming a mirror of
//! the whole network.

use vstd::prelude::*;
use vstd::string::*;

use crate::addr::{AddrModel, ServerAddr, addr_models, addr_text};
use crate::cache::{Cache, EntryModel, answering, asked, cache_hit, negative_until};
use crate::error::{Error, ErrorModel, Result, error_text, join3, outcome};
use crate::key::{PubKey, base58, key_len};
use crate::protocol::{
    ErrorCode, Request, RequestModel, Response, ResponseModel, code_name, code_number, opt_boxed,
};
use crate::record::{SignedModel, SignedRecord, answer_verified, successor_of};
use crate::resolver::opt_signed;
use crate::store::{Store, StoreModel};
use crate::text::{join_all, joined, texts};

use crate::shown::response_shown;

verus! {

broadcast use key_len;

/// An answer relayed from upstream.
pub struct Relayed {
    pub record: SignedRecord,
    /// The successor's record, when the answer forwards and it could be had.
    pub successor: Option<SignedRecord>,
}

/// A [`Relayed`] taken by the views of its records.
#[verifier::ext_equal]
pub struct RelayedModel {
    pub record: SignedModel,
    pub successor: Option<SignedModel>,
}

impl View for Relayed {
    type V = RelayedModel;

    open spec fn view(&self) -> RelayedModel {
        RelayedModel { record: self.record@, successor: opt_signed(self.successor) }
    }
}

/// An optional relayed answer taken by its view.
pub open spec fn opt_relayed(o: Option<Relayed>) -> Option<RelayedModel> {
    match o {
        Some(r) => Some(r@),
        None => None,
    }
}

/// Resolves keys this server does not hold by asking others.
pub struct Upstream {
    addrs: Vec<ServerAddr>,
    cache: Option<Cache>,
    /// Caps how many upstream queries are in flight at once, so a slow upstream
    /// cannot pin an unbounded number of tasks.
    inflight: usize,
}

/// An [`Upstream`] taken by the views of its parts.
#[verifier::ext_equal]
pub struct UpstreamModel {
    pub addrs: Seq<AddrModel>,
    pub cache: Option<Map<Seq<u8>, EntryModel>>,
    pub inflight: usize,
}

impl View for Upstream {
    type V = UpstreamModel;

    closed spec fn view(&self) -> UpstreamModel {
        UpstreamModel {
            addrs: addr_models(self.addrs@),
            cache: match self.cache {
                Some(c) => Some(c@),
                None => None,
            },
            inflight: self.inflight,
        }
    }
}

/// A question on its way through the upstreams.
pub struct UpstreamQuery {
    key: PubKey,
    recurse: u8,
    next: usize,
    errors: Vec<String>,
    answered: usize,
}

/// An [`UpstreamQuery`] taken by the views of its parts.
#[verifier::ext_equal]
pub struct QueryModel {
    pub key: Seq<u8>,
    /// Hops left after this one.
    pub recurse: u8,
    /// How many upstreams have been asked.
    pub next: nat,
    /// Why upstreams gave nothing that could be relayed.
    pub errors: Seq<Seq<char>>,
    /// How many upstreams gave an answer, even if it was refused.
    pub answered: nat,
}

impl View for UpstreamQuery {
    type V = QueryModel;

    closed spec fn view(&self) -> QueryModel {
        QueryModel {
            key: self.key@,
            recurse: self.recurse,
            next: self.next as nat,
            errors: texts(self.errors@),
            answered: self.answered as nat,
        }
    }
}

/// What came back from one upstream.
pub enum LinkReply {
    /// A response.
    Response(Response),
    /// The connection or the exchange failed.
    Failed(Error),
    /// Nothing came within the time allowed.
    TimedOut,
}

/// A [`LinkReply`] taken by its view.
#[verifier::ext_equal]
pub enum LinkReplyModel {
    Response(ResponseModel),
    Failed(ErrorModel),
    TimedOut,
}

impl View for LinkReply {
    type V = LinkReplyModel;

    open spec fn view(&self) -> LinkReplyModel {
        match *self {
            LinkReply::Response(r) => LinkReplyModel::Response(r@),
            LinkReply::Failed(e) => LinkReplyModel::Failed(e@),
            LinkReply::TimedOut => LinkReplyModel::TimedOut,
        }
    }
}

// ---------------------------------------------------------------------------
// Checks
// ---------------------------------------------------------------------------

/// The check of a relayed record before it is passed on: everything a client
/// checks, and that it does not contradict the identity the key was first
/// bound to here.
pub open spec fn relay_accepted(
    store: StoreModel,
    key: Seq<u8>,
    s: SignedModel,
    now: u64,
) -> std::result::Result<(), ErrorModel> {
    match answer_verified(s, key, now) {
        Err(e) => Err(e),
        Ok(_) => if store.bindings.dom().contains(key) && store.bindings[key]
            != s.record.delegation.identity {
            Err(
                ErrorModel::Delegation(
                    base58(key) + " is bound to identity "@ + base58(store.bindings[key])
                        + " here, but upstream answered for "@ + base58(
                        s.record.delegation.identity,
                    ),
                ),
            )
        } else {
            Ok(())
        },
    }
}

/// The successor record that came with a forwarding answer, if it is the
/// record of the key the answer forwards to and passes the same check.
pub open spec fn relay_successor(
    store: StoreModel,
    s: SignedModel,
    successor: Option<SignedModel>,
    now: u64,
) -> Option<SignedModel> {
    match (successor_of(s.record), successor) {
        (Some(next), Some(t)) => if t.record.key == next && relay_accepted(
            store,
            next,
            t,
            now,
        ) is Ok {
            Some(t)
        } else {
            None
        },
        _ => None,
    }
}

/// The cache with a relayed answer in it.
pub open spec fn relay_cached(
    cache: Option<Map<Seq<u8>, EntryModel>>,
    r: RelayedModel,
) -> Option<Map<Seq<u8>, EntryModel>> {
    match cache {
        None => None,
        Some(m) => {
            let with_record = m.insert(r.record.record.key, EntryModel::Found(r.record));
            Some(
                match r.successor {
                    Some(t) => with_record.insert(t.record.key, EntryModel::Found(t)),
                    None => with_record,
                },
            )
        },
    }
}

/// Upstreams before the first question: nothing is remembered, and at least one
/// question may be on its way.
pub open spec fn upstream_started(
    addrs: Seq<AddrModel>,
    cache: bool,
    max_inflight: usize,
) -> UpstreamModel {
    UpstreamModel {
        addrs,
        cache: if cache {
            Some(Map::empty())
        } else {
            None
        },
        inflight: if max_inflight < 1 {
            1
        } else {
            max_inflight
        },
    }
}

/// A question that nobody has been asked yet.
pub open spec fn query_started(key: Seq<u8>, recurse: u8) -> QueryModel {
    QueryModel { key, recurse, next: 0, errors: seq![], answered: 0 }
}

/// The request that puts a question to an upstream.
pub open spec fn query_asked(q: QueryModel) -> RequestModel {
    RequestModel::Lookup { key: q.key, recurse: q.recurse }
}

/// The query after an upstream gave nothing that could be relayed.
pub open spec fn query_failed(q: QueryModel, why: Seq<char>, answered: bool) -> QueryModel {
    QueryModel {
        next: q.next + 1,
        errors: q.errors.push(why),
        answered: if answered {
            q.answered + 1
        } else {
            q.answered
        },
        ..q
    }
}

/// What one upstream's reply comes to: an answer to relay or not, the upstreams
/// and the query afterwards.
pub open spec fn link_taken(
    u: UpstreamModel,
    q: QueryModel,
    store: StoreModel,
    reply: LinkReplyModel,
    now: u64,
) -> (Option<RelayedModel>, UpstreamModel, QueryModel) {
    let at = addr_text(u.addrs[q.next as int]);
    match reply {
        LinkReplyModel::Failed(e) => (None, u, query_failed(q, at + ": "@ + error_text(e), false)),
        LinkReplyModel::TimedOut => (None, u, query_failed(q, at + ": timed out"@, false)),
        LinkReplyModel::Response(ResponseModel::Answer { record: Some(s), successor }) =>
            match relay_accepted(store, q.key, s, now) {
            Err(e) => (None, u, query_failed(q, at + ": "@ + error_text(e), true)),
            Ok(_) => {
                let r = RelayedModel {
                    record: s,
                    successor: relay_successor(store, s, successor, now),
                };
                (
                    Some(r),
                    UpstreamModel { cache: relay_cached(u.cache, r), ..u },
                    QueryModel { next: q.next + 1, answered: q.answered + 1, ..q },
                )
            },
        },
        LinkReplyModel::Response(ResponseModel::Answer { record: None, .. }) => (
            None,
            u,
            QueryModel { next: q.next + 1, answered: q.answered + 1, ..q },
        ),
        LinkReplyModel::Response(ResponseModel::Error { code, message }) => (
            None,
            u,
            query_failed(q, at + ": "@ + code_name(code) + ": "@ + message, false),
        ),
        LinkReplyModel::Response(other) => (
            None,
            u,
            query_failed(q, at + ": unexpected "@ + response_shown(other), false),
        ),
    }
}

/// A query that every upstream has been asked: nobody has the key, or nobody
/// could be reached. Only when every upstream answered is the absence
/// remembered.
pub open spec fn query_over(u: UpstreamModel, q: QueryModel, now: u64) -> (
    std::result::Result<(), ErrorModel>,
    UpstreamModel,
) {
    if q.answered == u.addrs.len() {
        (
            Ok(()),
            UpstreamModel {
                cache: match u.cache {
                    Some(m) => Some(
                        m.insert(q.key, EntryModel::Missing { until: negative_until(now) }),
                    ),
                    None => None,
                },
                ..u
            },
        )
    } else if q.answered > 0 {
        (Ok(()), u)
    } else {
        (
            Err(
                ErrorModel::Server {
                    code: code_number(ErrorCode::UpstreamFailed),
                    message: "no upstream could answer ("@ + joined(q.errors, "; "@) + ")"@,
                },
            ),
            u,
        )
    }
}

/// What the cache gives for a key: an answer with its successor if that is
/// cached too, a known absence, or nothing.
pub open spec fn relay_hit(m: Map<Seq<u8>, EntryModel>, key: Seq<u8>, now: u64) -> Option<
    Option<RelayedModel>,
> {
    match cache_hit(m, key, now) {
        Some(Some(s)) => Some(
            Some(
                RelayedModel {
                    record: s,
                    successor: match successor_of(s.record) {
                        Some(next) => match cache_hit(asked(m, key, now), next, now) {
                            Some(Some(t)) => Some(t),
                            _ => None,
                        },
                        None => None,
                    },
                },
            ),
        ),
        Some(None) => Some(None),
        None => None,
    }
}

/// The cache after it was asked for a key and, if that forwards, its
/// successor.
pub open spec fn relay_asked(
    m: Map<Seq<u8>, EntryModel>,
    key: Seq<u8>,
    now: u64,
) -> Map<Seq<u8>, EntryModel> {
    let first = asked(m, key, now);
    match cache_hit(m, key, now) {
        Some(Some(s)) => match successor_of(s.record) {
            Some(next) => asked(first, next, now),
            None => first,
        },
        _ => first,
    }
}

impl UpstreamQuery {
    /// Fewer upstreams have been asked than a machine can count.
    pub closed spec fn wf(&self) -> bool {
        self.answered <= self.next
    }

    /// Whether there is an upstream left to ask.
    pub fn pending(&self, upstream: &Upstream) -> (b: bool)
        ensures
            b == (self@.next < upstream@.addrs.len()),
    {
        self.next < upstream.addrs.len()
    }

    /// The position of the upstream to ask next.
    pub fn position(&self) -> (i: usize)
        ensures
            i == self@.next,
    {
        self.next
    }

    /// The request to send: the question, with the hops that are left.
    pub fn request(&self) -> (r: Request)
        ensures
            r@ == query_asked(self@),
    {
        Request::Lookup { key: self.key, recurse: self.recurse }
    }
}

impl Upstream {
    /// The cache is in order.
    pub closed spec fn wf(&self) -> bool {
        self.cache matches Some(c) ==> c.wf()
    }

    pub fn new(addrs: Vec<ServerAddr>, cache: bool, max_inflight: usize) -> (u: Self)
        ensures
            u.wf(),
            u@ == upstream_started(addr_models(addrs@), cache, max_inflight),
    {
        Upstream {
            addrs,
            cache: if cache {
                Some(Cache::new())
            } else {
                None
            },
            inflight: if max_inflight < 1 {
                1
            } else {
                max_inflight
            },
        }
    }

    pub fn is_empty(&self) -> (b: bool)
        ensures
            b == (self@.addrs.len() == 0),
    {
        self.addrs.len() == 0
    }

    pub fn len(&self) -> (n: usize)
        ensures
            n == self@.addrs.len(),
    {
        self.addrs.len()
    }

    pub fn addrs(&self) -> (v: &[ServerAddr])
        ensures
            addr_models(v@) == self@.addrs,
    {
        self.addrs.as_slice()
    }

    /// How many queries may be in flight at once.
    pub fn inflight(&self) -> (n: usize)
        ensures
            n == self@.inflight,
    {
        self.inflight
    }

    /// How many answers are held in the relay cache.
    pub fn cached(&self) -> (n: usize)
        requires
            self.wf(),
        ensures
            n == (match self@.cache {
                Some(m) => m.len(),
                None => 0,
            }),
    {
        match &self.cache {
            Some(c) => c.len(),
            None => 0,
        }
    }

    /// Drop cache entries that have expired at `now`; returns how many went.
    pub fn purge(&mut self, now: u64) -> (removed: usize)
        requires
            old(self).wf(),
        ensures
            final(self).wf(),
            final(self)@ == (UpstreamModel {
                cache: match old(self)@.cache {
                    Some(m) => Some(answering(m, now)),
                    None => None,
                },
                ..old(self)@
            }),
            removed == (match old(self)@.cache {
                Some(m) => m.len() - answering(m, now).len(),
                None => 0,
            }),
    {
        match &mut self.cache {
            Some(c) => c.purge_at(now),
            None => 0,
        }
    }

    /// What is already known here of a key: an answer, a known absence, or
    /// nothing.
    pub fn recall(&mut self, key: &PubKey, now: u64) -> (r: Option<Option<Relayed>>)
        requires
            old(self).wf(),
        ensures
            final(self).wf(),
            match r {
                Some(o) => old(self)@.cache matches Some(m) && relay_hit(m, key@, now) == Some(
                    opt_relayed(o),
                ),
                None => old(self)@.cache matches Some(m) ==> relay_hit(m, key@, now) is None,
            },
            final(self)@ == (UpstreamModel {
                cache: match old(self)@.cache {
                    Some(m) => Some(relay_asked(m, key@, now)),
                    None => None,
                },
                ..old(self)@
            }),
    {
        match &mut self.cache {
            Some(c) => match c.get_at(key, now) {
                Some(Some(record)) => {
                    let successor = match record.record.successor() {
                        Some(next) => match c.get_at(&next, now) {
                            Some(Some(t)) => Some(t),
                            _ => None,
                        },
                        None => None,
                    };
                    Some(Some(Relayed { record, successor }))
                },
                Some(None) => Some(None),
                None => None,
            },
            None => None,
        }
    }

    /// Start asking, forwarding with `recurse` hops remaining.
    pub fn query(&self, key: &PubKey, recurse: u8) -> (q: UpstreamQuery)
        ensures
            q.wf(),
            q@ == query_started(key@, recurse),
    {
        let q = UpstreamQuery { key: *key, recurse, next: 0, errors: Vec::new(), answered: 0 };
        assert(q@.errors =~= seq![]);
        q
    }

    /// Check a relayed record before this server passes it on.
    ///
    /// The client verifies too, but a server should not relay something it has
    /// not checked itself, and it holds one piece of context the client may
    /// lack: which identity this key was first bound to.
    pub fn accept(store: &Store, key: &PubKey, record: &SignedRecord, now: u64) -> (r: Result<()>)
        requires
            store.wf(),
        ensures
            outcome(r) == relay_accepted(store@, key@, record@, now),
    {
        record.verify_answer(key, now)?;
        if let Some(bound) = store.identity_of(key) {
            let identity = record.identity();
            if identity != bound {
                let mut m = key.to_string();
                m.append(" is bound to identity ");
                m.append(bound.to_string().as_str());
                m.append(" here, but upstream answered for ");
                m.append(identity.to_string().as_str());
                return Err(Error::Delegation(m));
            }
        }
        Ok(())
    }

    /// Validate the successor record that came with a forwarding answer.
    fn accept_successor(
        store: &Store,
        record: &SignedRecord,
        successor: Option<Box<SignedRecord>>,
        now: u64,
    ) -> (r: Option<SignedRecord>)
        requires
            store.wf(),
        ensures
            opt_signed(r) == relay_successor(store@, record@, opt_boxed(successor), now),
    {
        let expected = match record.record.successor() {
            Some(k) => k,
            None => {
                return None;
            },
        };
        match successor {
            Some(t) => {
                let t = *t;
                if t.key() == expected && Self::accept(store, &expected, &t, now).is_ok() {
                    Some(t)
                } else {
                    None
                }
            },
            None => None,
        }
    }

    /// Take the reply of the upstream whose turn it is: an answer to relay, or
    /// nothing, and then the next one is to be asked.
    pub fn take_reply(
        &mut self,
        q: &mut UpstreamQuery,
        store: &Store,
        reply: LinkReply,
        now: u64,
    ) -> (r: Option<Relayed>)
        requires
            old(self).wf(),
            old(q).wf(),
            store.wf(),
            old(q)@.next < old(self)@.addrs.len(),
        ensures
            final(self).wf(),
            final(q).wf(),
            (opt_relayed(r), final(self)@, final(q)@) == link_taken(
                old(self)@,
                old(q)@,
                store@,
                reply@,
                now,
            ),
    {
        let ghost (u0, q0) = (self@, q@);
        let count: usize = self.addrs.len();
        proof {
            assert(q.next < count);
        }
        let mut why = self.addrs[q.next].to_string();
        q.next = q.next + 1;
        match reply {
            LinkReply::Failed(e) => {
                why.append(": ");
                why.append(e.to_string().as_str());
            },
            LinkReply::TimedOut => {
                why.append(": timed out");
            },
            LinkReply::Response(Response::Answer { record: Some(rec), successor }) => {
                q.answered = q.answered + 1;
                let rec = *rec;
                match Self::accept(store, &q.key, &rec, now) {
                    Err(e) => {
                        why.append(": ");
                        why.append(e.to_string().as_str());
                    },
                    Ok(()) => {
                        let next = Self::accept_successor(store, &rec, successor, now);
                        if let Some(c) = &mut self.cache {
                            c.put(rec.clone());
                            if let Some(t) = &next {
                                c.put(t.clone());
                            }
                        }
                        return Some(Relayed { record: rec, successor: next });
                    },
                }
            },
            LinkReply::Response(Response::Answer { record: None, successor: _ }) => {
                q.answered = q.answered + 1;
                return None;
            },
            LinkReply::Response(Response::Error { code, message }) => {
                why.append(": ");
                why.append(code.name());
                why.append(": ");
                why.append(message.as_str());
            },
            LinkReply::Response(other) => {
                why.append(": unexpected ");
                why.append(other.shown().as_str());
            },
        }
        q.errors.push(why);
        proof {
            assert(q@.errors =~= q0.errors.push(why@));
        }
        None
    }

    /// Nobody is left to ask: `Ok` means nobody has the key. An error means
    /// nobody could be reached, which is a different thing and must not be
    /// relayed as absence.
    pub fn finish(&mut self, q: UpstreamQuery, now: u64) -> (r: Result<()>)
        requires
            old(self).wf(),
        ensures
            final(self).wf(),
            (outcome(r), final(self)@) == query_over(old(self)@, q@, now),
    {
        // Only remember a negative when every upstream actually answered. An
        // upstream that was unreachable might have had it.
        if q.answered == self.addrs.len() {
            if let Some(c) = &mut self.cache {
                c.put_missing_at(q.key, now);
            }
            return Ok(());
        }
        if q.answered > 0 {
            return Ok(());
        }
        let list = join_all(&q.errors, "; ");
        Err(
            Error::Server {
                code: ErrorCode::UpstreamFailed.to_u16(),
                message: join3("no upstream could answer (", list.as_str(), ")"),
            },
        )
    }
}

// ---------------------------------------------------------------------------
// Laws
// ---------------------------------------------------------------------------

/// Relaying adds no trust: what is relayed passed every check a client makes,
/// for the key that was asked for, and does not contradict the identity the
/// key is bound to here.
pub proof fn only_checked_answers_are_relayed(
    u: UpstreamModel,
    q: QueryModel,
    store: StoreModel,
    reply: LinkReply,
    now: u64,
)
    ensures
        link_taken(u, q, store, reply@, now).0 matches Some(r) ==> answer_verified(
            r.record,
            q.key,
            now,
        ) is Ok && (store.bindings.dom().contains(q.key) ==> store.bindings[q.key]
            == r.record.record.delegation.identity),
{
}

/// An outage and an absence are different answers: with at least one upstream,
/// of which none gave an answer, the lookup is an error and nothing is
/// remembered.
pub proof fn an_outage_is_no_absence(u: UpstreamModel, q: QueryModel, now: u64)
    requires
        u.addrs.len() > 0,
        q.answered == 0,
    ensures
        query_over(u, q, now).0 is Err,
        query_over(u, q, now).1 == u,
{
}

/// An absence is remembered only when every upstream answered.
pub proof fn absence_takes_every_answer(u: UpstreamModel, q: QueryModel, now: u64)
    requires
        query_over(u, q, now).1 != u,
    ensures
        q.answered == u.addrs.len(),
{
}

} // verus!
