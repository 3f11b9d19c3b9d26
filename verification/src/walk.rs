//! Following rotations: from the key a caller holds to where it lives now.
//!
//! A key that has been superseded forwards to its replacement. Every hop is
//! verified against the key the previous record named, the walk is capped at
//! [`MAX_SUPERSEDE_HOPS`], and a cycle is an error rather than a spin.

use vstd::prelude::*;
use vstd::string::*;

use crate::endpoint::{Endpoint, endpoint_models};
use crate::error::{Error, ErrorModel, Result};
use crate::key::{PubKey, base58, key_len};
use crate::record::{
    SignedModel, SignedRecord, answer_verified, endpoints_of, revocation_of, successor_of,
};
use crate::resolver::{
    Found, MAX_SUPERSEDE_HOPS, Resolver, ResolverModel, cached_found, opt_signed, rank_noted,
};
use crate::select::{may_order, order_endpoints};
use crate::text::{dec, push_dec};

verus! {

broadcast use key_len;

/// Where a service key currently lives, after following any rotations.
#[derive(Debug, PartialEq, Eq)]
pub struct ServiceLocation {
    /// The key the caller asked for.
    pub requested: PubKey,
    /// The key actually reached, and the one to pin for the sQUIC handshake.
    /// It differs from `requested` when the key has been rotated.
    pub key: PubKey,
    /// The identity that issued `key`.
    pub identity: PubKey,
    /// Endpoints in the order they should be tried.
    pub endpoints: Vec<Endpoint>,
    /// Keys walked through to get here, oldest first. Empty when the requested
    /// key answered directly.
    pub superseded_from: Vec<PubKey>,
}

impl ServiceLocation {
    /// True when the caller's key has been rotated and its pinned copy is out
    /// of date.
    pub fn is_stale(&self) -> (b: bool)
        ensures
            b == (self.key@ != self.requested@),
    {
        self.key != self.requested
    }
}

/// The bytes of a sequence of keys.
pub open spec fn key_seq(v: Seq<PubKey>) -> Seq<Seq<u8>> {
    Seq::new(v.len(), |i: int| v[i]@)
}

/// A walk along a chain of rotations.
pub struct ServiceWalk {
    requested: PubKey,
    current: PubKey,
    chain: Vec<PubKey>,
    /// A successor record a server already handed over, saving a round trip.
    prefetched: Option<SignedRecord>,
}

/// A [`ServiceWalk`] taken by the views of its parts.
#[verifier::ext_equal]
pub struct WalkModel {
    /// The key the caller asked for.
    pub requested: Seq<u8>,
    /// The key whose record is wanted next.
    pub current: Seq<u8>,
    /// The keys left behind, oldest first.
    pub chain: Seq<Seq<u8>>,
    /// The record of `current`, if a server already sent it along.
    pub prefetched: Option<SignedModel>,
}

impl View for ServiceWalk {
    type V = WalkModel;

    closed spec fn view(&self) -> WalkModel {
        WalkModel {
            requested: self.requested@,
            current: self.current@,
            chain: key_seq(self.chain@),
            prefetched: opt_signed(self.prefetched),
        }
    }
}

/// What holds of every walk: it has followed no more rotations than it may, has
/// not been anywhere twice, and a record sent along is for the key it stands
/// at.
pub open spec fn walk_inv(w: WalkModel) -> bool {
    &&& w.chain.len() <= MAX_SUPERSEDE_HOPS
    &&& w.chain.no_duplicates()
    &&& !w.chain.contains(w.current)
    &&& w.prefetched matches Some(s) ==> s.record.key == w.current
    &&& w.chain.len() == 0 ==> w.current == w.requested
    &&& w.chain.len() > 0 ==> w.chain[0] == w.requested
}

/// A walk that has not been anywhere but at `key`.
pub open spec fn fresh_walk(key: Seq<u8>) -> WalkModel {
    WalkModel { requested: key, current: key, chain: seq![], prefetched: None }
}

/// What a step of a walk comes to.
#[verifier::ext_equal]
pub enum WalkOutcome {
    /// It ends in this error.
    Failed(ErrorModel),
    /// It ends at this record.
    Reached(SignedModel),
    /// It goes on from here.
    Moved(WalkModel),
}

/// A record that a server sent along with a tombstone is used only if it is
/// really the record for the key the tombstone named.
pub open spec fn usable_successor(
    m: ResolverModel,
    next: Seq<u8>,
    successor: Option<SignedModel>,
    now: u64,
) -> Option<SignedModel> {
    match successor {
        Some(s) => if s.record.key == next && answer_verified(s, next, now) is Ok && rank_noted(
            m.marks,
            s,
        ).0 is Ok {
            Some(s)
        } else {
            None
        },
        None => None,
    }
}

/// The resolver after a record sent along was used.
pub open spec fn successor_noted(m: ResolverModel, used: Option<SignedModel>) -> ResolverModel {
    match used {
        Some(s) => ResolverModel {
            config: m.config,
            cache: cached_found(m, s),
            marks: rank_noted(m.marks, s).1,
        },
        None => m,
    }
}

/// A chain of rotations that comes back on itself.
pub open spec fn cycle_error(requested: Seq<u8>, next: Seq<u8>) -> ErrorModel {
    ErrorModel::SupersedeChain(
        base58(requested) + " forwards in a cycle, back to "@ + base58(next),
    )
}

/// A chain of rotations too long to follow.
pub open spec fn chain_error(requested: Seq<u8>) -> ErrorModel {
    ErrorModel::SupersedeChain(
        base58(requested) + " forwards through more than "@ + dec(MAX_SUPERSEDE_HOPS as nat)
            + " keys"@,
    )
}

/// One step: what was found for the key the walk stands at decides how it goes
/// on, and what the resolver knows afterwards.
pub open spec fn walk_step(
    m: ResolverModel,
    w: WalkModel,
    record: Option<SignedModel>,
    successor: Option<SignedModel>,
    now: u64,
) -> (WalkOutcome, ResolverModel) {
    match record {
        None => (WalkOutcome::Failed(ErrorModel::Unpublished(base58(w.current))), m),
        Some(s) => if let Some(e) = revocation_of(s.record) {
            (WalkOutcome::Failed(e), m)
        } else {
            match successor_of(s.record) {
                None => (WalkOutcome::Reached(s), m),
                Some(next) => if next == w.current || w.chain.contains(next) {
                    (WalkOutcome::Failed(cycle_error(w.requested, next)), m)
                } else {
                    let used = usable_successor(m, next, successor, now);
                    let after = successor_noted(m, used);
                    if w.chain.len() + 1 > MAX_SUPERSEDE_HOPS {
                        (WalkOutcome::Failed(chain_error(w.requested)), after)
                    } else {
                        (
                            WalkOutcome::Moved(
                                WalkModel {
                                    requested: w.requested,
                                    current: next,
                                    chain: w.chain.push(w.current),
                                    prefetched: used,
                                },
                            ),
                            after,
                        )
                    }
                },
            }
        },
    }
}

/// The location that a walk reached.
pub open spec fn is_location(l: ServiceLocation, w: WalkModel, s: SignedModel) -> bool {
    &&& l.requested@ == w.requested
    &&& l.key@ == s.record.key
    &&& l.identity@ == s.record.delegation.identity
    &&& may_order(endpoints_of(s.record), endpoint_models(l.endpoints@))
    &&& key_seq(l.superseded_from@) == w.chain
}

fn has_key(v: &Vec<PubKey>, k: &PubKey) -> (b: bool)
    ensures
        b == key_seq(v@).contains(k@),
{
    let mut i: usize = 0;
    while i < v.len()
        invariant
            i <= v@.len(),
            forall|j: int| 0 <= j < i ==> key_seq(v@)[j] != k@,
        decreases v@.len() - i,
    {
        if v[i] == *k {
            assert(key_seq(v@)[i as int] == k@);
            return true;
        }
        i += 1;
    }
    false
}

impl ServiceWalk {
    /// The walk can go on.
    pub open spec fn wf(&self) -> bool {
        walk_inv(self@)
    }

    /// A walk that starts at `key`.
    pub fn start(key: &PubKey) -> (w: Self)
        ensures
            w.wf(),
            w@ == fresh_walk(key@),
    {
        let w = ServiceWalk {
            requested: *key,
            current: *key,
            chain: Vec::new(),
            prefetched: None,
        };
        assert(w@.chain =~= seq![]);
        w
    }

    /// The key whose record is wanted next.
    pub fn current(&self) -> (k: PubKey)
        ensures
            k@ == self@.current,
    {
        self.current
    }

    /// The record of the current key, if a server already sent it along.
    pub fn take_prefetched(&mut self) -> (r: Option<SignedRecord>)
        requires
            old(self).wf(),
        ensures
            final(self).wf(),
            opt_signed(r) == old(self)@.prefetched,
            final(self)@ == (WalkModel { prefetched: None, ..old(self)@ }),
    {
        self.prefetched.take()
    }
}

impl Resolver {
    /// Whether a record sent along with a tombstone may be used for `next`; if
    /// so, what it establishes is noted.
    fn use_successor(&mut self, next: &PubKey, candidate: &SignedRecord, now: u64) -> (used: bool)
        requires
            old(self).wf(),
        ensures
            final(self).wf(),
            used == (usable_successor(old(self)@, next@, Some(candidate@), now) is Some),
            final(self)@ == successor_noted(
                old(self)@,
                usable_successor(old(self)@, next@, Some(candidate@), now),
            ),
    {
        if candidate.key() != *next {
            return false;
        }
        if candidate.verify_answer(next, now).is_err() {
            return false;
        }
        if self.note_rank(candidate).is_err() {
            return false;
        }
        self.cache_found(candidate);
        true
    }

    /// Take a step: `found` is what was found for the key the walk stands at.
    ///
    /// The result is the location if the walk is over, and nothing if it goes
    /// on.
    pub fn step_walk(&mut self, walk: &mut ServiceWalk, found: Found, now: u64) -> (r: Result<
        Option<ServiceLocation>,
    >)
        requires
            old(self).wf(),
            old(walk).wf(),
        ensures
            final(self).wf(),
            ({
                let (step, after) = walk_step(
                    old(self)@,
                    old(walk)@,
                    opt_signed(found.0),
                    opt_signed(found.1),
                    now,
                );
                &&& final(self)@ == after
                &&& match step {
                    WalkOutcome::Failed(e) => r matches Err(x) && x@ == e && final(walk)@ == old(walk)@,
                    WalkOutcome::Reached(s) => r matches Ok(Some(l)) && is_location(
                        l,
                        old(walk)@,
                        s,
                    ) && final(walk)@ == old(walk)@,
                    WalkOutcome::Moved(w) => r matches Ok(None) && final(walk)@ == w
                        && final(walk).wf(),
                }
            }),
    {
        let ghost w = walk@;
        let (record, successor) = found;
        let record = match record {
            Some(rec) => rec,
            None => {
                return Err(Error::Unpublished(walk.current.to_string()));
            },
        };
        if let Some(revoked) = record.revocation_error() {
            return Err(revoked);
        }
        let next = match record.record.successor() {
            Some(next) => next,
            None => {
                let mut left: Vec<PubKey> = Vec::new();
                let mut i: usize = 0;
                while i < walk.chain.len()
                    invariant
                        i <= walk.chain@.len(),
                        left@.len() == i,
                        forall|j: int| 0 <= j < i ==> #[trigger] left@[j] == walk.chain@[j],
                    decreases walk.chain@.len() - i,
                {
                    left.push(walk.chain[i]);
                    i += 1;
                }
                proof {
                    assert(key_seq(left@) =~= key_seq(walk.chain@));
                }
                return Ok(
                    Some(
                        ServiceLocation {
                            requested: walk.requested,
                            key: record.key(),
                            identity: record.identity(),
                            endpoints: order_endpoints(&record.record),
                            superseded_from: left,
                        },
                    ),
                );
            },
        };
        if next == walk.current || has_key(&walk.chain, &next) {
            let mut m = walk.requested.to_string();
            m.append(" forwards in a cycle, back to ");
            m.append(next.to_string().as_str());
            return Err(Error::SupersedeChain(m));
        }
        let mut prefetched: Option<SignedRecord> = None;
        if let Some(candidate) = successor {
            if self.use_successor(&next, &candidate, now) {
                prefetched = Some(candidate);
            }
        }
        if walk.chain.len() + 1 > MAX_SUPERSEDE_HOPS {
            let mut m = walk.requested.to_string();
            m.append(" forwards through more than ");
            push_dec(&mut m, MAX_SUPERSEDE_HOPS as u64);
            m.append(" keys");
            return Err(Error::SupersedeChain(m));
        }
        let left = walk.current;
        walk.chain.push(left);
        walk.current = next;
        walk.prefetched = prefetched;
        proof {
            assert(key_seq(walk.chain@) =~= w.chain.push(w.current));
            let c = walk@.chain;
            assert forall|i: int, j: int|
                0 <= i < c.len() && 0 <= j < c.len() && i != j implies c[i] != c[j] by {
                if i < w.chain.len() {
                    assert(c[i] == w.chain[i]);
                }
                if j < w.chain.len() {
                    assert(c[j] == w.chain[j]);
                }
            }
            assert(!c.contains(walk@.current)) by {
                if c.contains(walk@.current) {
                    let i = choose|i: int| 0 <= i < c.len() && c[i] == walk@.current;
                    if i < w.chain.len() {
                        assert(w.chain[i] == next@);
                    }
                }
            }
        }
        Ok(None)
    }
}

// ---------------------------------------------------------------------------
// Laws
// ---------------------------------------------------------------------------

/// A walk that goes on has one hop less to go, has left the key it stood at
/// behind, and never stands at a key twice: no walk follows more than
/// [`MAX_SUPERSEDE_HOPS`] rotations.
pub proof fn walks_end(
    m: ResolverModel,
    w: WalkModel,
    record: Option<SignedModel>,
    successor: Option<SignedModel>,
    now: u64,
)
    requires
        walk_inv(w),
    ensures
        walk_step(m, w, record, successor, now).0 matches WalkOutcome::Moved(v) ==> walk_inv(v)
            && v.chain.len() == w.chain.len() + 1 && v.chain == w.chain.push(w.current)
            && v.requested == w.requested,
{
    if let WalkOutcome::Moved(v) = walk_step(m, w, record, successor, now).0 {
        assert forall|i: int, j: int|
            0 <= i < v.chain.len() && 0 <= j < v.chain.len() && i != j implies v.chain[i]
            != v.chain[j] by {
            if i < w.chain.len() {
                assert(v.chain[i] == w.chain[i]);
            }
            if j < w.chain.len() {
                assert(v.chain[j] == w.chain[j]);
            }
        }
        assert(!v.chain.contains(v.current)) by {
            if v.chain.contains(v.current) {
                let i = choose|i: int| 0 <= i < v.chain.len() && v.chain[i] == v.current;
                if i < w.chain.len() {
                    assert(w.chain[i] == v.current);
                }
            }
        }
    }
}

/// A rotation back to a key the walk has been at is an error, not a spin.
pub proof fn cycles_are_refused(
    m: ResolverModel,
    w: WalkModel,
    s: SignedRecord,
    successor: Option<SignedModel>,
    now: u64,
)
    requires
        successor_of(s@.record) matches Some(next) && (next == w.current || w.chain.contains(
            next,
        )),
    ensures
        walk_step(m, w, Some(s@), successor, now).0 == WalkOutcome::Failed(
            cycle_error(w.requested, successor_of(s@.record)->0),
        ),
{
}

/// A revoked key fails closed, wherever in a chain it stands.
pub proof fn revoked_keys_fail_closed(
    m: ResolverModel,
    w: WalkModel,
    s: SignedRecord,
    successor: Option<SignedModel>,
    now: u64,
)
    requires
        s@.record.body is Revoked,
    ensures
        walk_step(m, w, Some(s@), successor, now).0 == WalkOutcome::Failed(
            revocation_of(s@.record)->0,
        ),
{
}

/// A record sent along that is not verified for the key the tombstone named,
/// or contradicts what is known of it, changes nothing.
pub proof fn a_false_successor_is_ignored(
    m: ResolverModel,
    w: WalkModel,
    s: SignedRecord,
    successor: SignedRecord,
    now: u64,
)
    requires
        successor_of(s@.record) matches Some(next) && (answer_verified(
            successor@,
            next,
            now,
        ) is Err || rank_noted(m.marks, successor@).0 is Err),
    ensures
        walk_step(m, w, Some(s@), Some(successor@), now) == walk_step(m, w, Some(s@), None, now),
{
}

} // verus!
