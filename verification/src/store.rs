//! The record store: verify, merge, list, snapshot.
//!
//! The store is the only place records enter the server, and every path in (a
//! client publishing, a peer replicating, a snapshot loading from disk) goes
//! through [`Store::put`], which verifies the signature chain before the record
//! is kept. A record is accepted only if it beats the one already held, which
//! makes replication order-independent and replay-safe.
//!
//! Two pieces of state outlive the records themselves, because both exist to
//! stop a stolen key from coming back:
//!
//! - **Retirement is terminal.** Once a key is superseded or revoked, no later
//!   record for it is ever accepted, and the tombstone never expires or gets
//!   swept.
//! - **Identity bindings.** The identity that issued a service key is pinned
//!   from that key's first record and kept for good. Only that identity can
//!   retire the key, and every later record for it must carry a delegation from
//!   it.

use std::path::PathBuf;

use vstd::prelude::*;
use vstd::string::*;

use crate::delegation::delegation_expired;
use crate::error::{Error, ErrorModel, Result, outcome};
use crate::key::{PubKey, base58, bytes_before, key_len, opt_bytes};
use crate::keymap::{KeyMap, position_is_unique};
use crate::order::{is_stable_order, ranks_before, stable_order};
use crate::record::{
    MAX_CLOCK_SKEW, SignedModel, SignedRecord, delegation_lapsed, expires_at, is_expired,
    is_terminal, now_unix, retirement_error, retirement_of, signed_models, signed_verified,
    supersedes, validated,
};
use crate::snapshot::{
    Snapshot, binding_pairs, decode_snapshot, encode_snapshot, key_values, snapshot_bytes,
    snapshot_decoded,
};
use crate::text::{dec, push_dec};

verus! {

broadcast use key_len;

/// A file path of the operating system.
#[verifier::external_type_specification]
#[verifier::external_body]
pub struct ExPathBuf(std::path::PathBuf);

/// What [`Store::put`] did with a record.
#[derive(Debug, Clone, Copy, PartialEq, Eq, Structural)]
pub enum PutOutcome {
    /// Stored: this key had no record, or this one supersedes it.
    Stored,
    /// Ignored: an equal or newer record is already held.
    Stale,
}

impl View for PutOutcome {
    type V = PutOutcome;

    open spec fn view(&self) -> PutOutcome {
        *self
    }
}

impl PutOutcome {
    pub fn stored(self) -> (b: bool)
        ensures
            b == (self is Stored),
    {
        match self {
            PutOutcome::Stored => true,
            PutOutcome::Stale => false,
        }
    }
}

/// In-memory record set with an optional place for its snapshot.
pub struct Store {
    records: KeyMap<SignedRecord>,
    /// The identity that issued each service key, pinned on first sight and
    /// kept even after the key's records expire.
    bindings: KeyMap<PubKey>,
    path: Option<PathBuf>,
    /// Bumped on every change, so the snapshot writer can skip idle intervals.
    revision: u64,
}

/// What a store holds.
#[verifier::ext_equal]
pub struct StoreModel {
    pub records: Map<Seq<u8>, SignedModel>,
    pub bindings: Map<Seq<u8>, Seq<u8>>,
    pub revision: u64,
}

/// A map of signed records taken by their views.
pub open spec fn record_values(m: Map<Seq<u8>, SignedRecord>) -> Map<Seq<u8>, SignedModel> {
    Map::new(|k: Seq<u8>| m.dom().contains(k), |k: Seq<u8>| m[k]@)
}

impl View for Store {
    type V = StoreModel;

    closed spec fn view(&self) -> StoreModel {
        StoreModel {
            records: record_values(self.records@),
            bindings: key_values(self.bindings@),
            revision: self.revision,
        }
    }
}

/// A record a store may hold under `key`: it is for that key, sound, signed by
/// whom it must be, and issued by the identity the key is bound to.
pub open spec fn held_soundly(m: StoreModel, key: Seq<u8>) -> bool {
    let s = m.records[key];
    &&& s.record.key == key
    &&& validated(s.record) is Ok
    &&& signed_verified(s) is Ok
    &&& m.bindings.dom().contains(key)
    &&& m.bindings[key] == s.record.delegation.identity
}

/// What holds of every store: every record in it is held soundly.
pub open spec fn store_inv(m: StoreModel) -> bool {
    forall|key: Seq<u8>| #[trigger] m.records.dom().contains(key) ==> held_soundly(m, key)
}

/// The checks every record passes before it is compared with what is held.
pub open spec fn admitted(s: SignedModel, now: u64) -> std::result::Result<(), ErrorModel> {
    if validated(s.record) is Err {
        validated(s.record)
    } else if signed_verified(s) is Err {
        signed_verified(s)
    } else if s.record.issued_at > now + MAX_CLOCK_SKEW {
        Err(
            ErrorModel::Record(
                "record is issued "@ + dec((s.record.issued_at - now) as nat)
                    + "s in the future (max skew "@ + dec(MAX_CLOCK_SKEW as nat) + "s)"@,
            ),
        )
    } else if is_expired(s.record, now) {
        Err(ErrorModel::Expired((now - expires_at(s.record)) as u64))
    } else if delegation_expired(s.record.delegation, now) && !is_terminal(s.record) {
        Err(delegation_lapsed(s.record, now))
    } else {
        Ok(())
    }
}

/// A record that claims another identity than the key is bound to.
pub open spec fn foreign_identity(key: Seq<u8>, bound: Seq<u8>, claimed: Seq<u8>) -> ErrorModel {
    ErrorModel::Delegation(
        base58(key) + " belongs to identity "@ + base58(bound) + ", but this record claims "@
            + base58(claimed),
    )
}

/// A binding kept if there is one, else made.
pub open spec fn bound(
    bindings: Map<Seq<u8>, Seq<u8>>,
    key: Seq<u8>,
    identity: Seq<u8>,
) -> Map<Seq<u8>, Seq<u8>> {
    if bindings.dom().contains(key) {
        bindings
    } else {
        bindings.insert(key, identity)
    }
}

/// What putting a record does: its outcome, and the store afterwards.
pub open spec fn put_result(m: StoreModel, s: SignedModel, now: u64) -> (
    std::result::Result<PutOutcome, ErrorModel>,
    StoreModel,
) {
    let key = s.record.key;
    let identity = s.record.delegation.identity;
    if let Err(e) = admitted(s, now) {
        (Err(e), m)
    } else if m.records.dom().contains(key) && is_terminal(m.records[key].record) {
        (Err(retirement_of(m.records[key].record)->0), m)
    } else if m.bindings.dom().contains(key) && m.bindings[key] != identity {
        (Err(foreign_identity(key, m.bindings[key], identity)), m)
    } else if m.records.dom().contains(key) && !supersedes(s.record, m.records[key].record) {
        (Ok(PutOutcome::Stale), m)
    } else {
        (
            Ok(PutOutcome::Stored),
            StoreModel {
                records: m.records.insert(key, s),
                bindings: bound(m.bindings, key, identity),
                revision: bumped(m.revision),
            },
        )
    }
}

/// The next revision. The counter wraps.
pub open spec fn bumped(revision: u64) -> u64 {
    if revision == u64::MAX {
        0
    } else {
        (revision + 1) as u64
    }
}

/// The record for a key, unless it has expired.
pub open spec fn held(m: StoreModel, key: Seq<u8>, now: u64) -> Option<SignedModel> {
    if m.records.dom().contains(key) && !is_expired(m.records[key].record, now) {
        Some(m.records[key])
    } else {
        None
    }
}

/// A record that a listing of the store shows.
pub open spec fn listed(m: StoreModel, s: SignedModel, now: u64) -> bool {
    held(m, s.record.key, now) == Some(s)
}

/// `a` comes before `b` in a sync listing: by time of issue, then by key.
pub open spec fn synced_before(a: SignedModel, b: SignedModel) -> bool {
    a.record.issued_at < b.record.issued_at || (a.record.issued_at == b.record.issued_at
        && bytes_before(a.record.key, b.record.key))
}

/// `l` is every unexpired record issued at or after `since`, oldest first.
pub open spec fn is_sync_list(l: Seq<SignedModel>, m: StoreModel, since: u64, now: u64) -> bool {
    &&& forall|i: int|
        0 <= i < l.len() ==> listed(m, #[trigger] l[i], now) && l[i].record.issued_at >= since
    &&& forall|k: Seq<u8>| #[trigger]
        m.records.dom().contains(k) && !is_expired(m.records[k].record, now)
            && m.records[k].record.issued_at >= since ==> l.contains(m.records[k])
    &&& forall|i: int, j: int|
        0 <= i < j < l.len() ==> synced_before(#[trigger] l[i], #[trigger] l[j])
}

/// `l` is every unexpired record of a key bound to `identity`, in key order.
pub open spec fn is_identity_list(
    l: Seq<SignedModel>,
    m: StoreModel,
    identity: Seq<u8>,
    now: u64,
) -> bool {
    &&& forall|i: int|
        0 <= i < l.len() ==> listed(m, #[trigger] l[i], now) && m.bindings.dom().contains(
            l[i].record.key,
        ) && m.bindings[l[i].record.key] == identity
    &&& forall|k: Seq<u8>| #[trigger]
        m.records.dom().contains(k) && !is_expired(m.records[k].record, now)
            && m.bindings.dom().contains(k) && m.bindings[k] == identity ==> l.contains(
            m.records[k],
        )
    &&& forall|i: int, j: int|
        0 <= i < j < l.len() ==> bytes_before(
            (#[trigger] l[i]).record.key,
            (#[trigger] l[j]).record.key,
        )
}

/// At most the first `limit` of a listing.
pub open spec fn first_of<A>(l: Seq<A>, limit: nat) -> Seq<A> {
    if l.len() <= limit {
        l
    } else {
        l.subrange(0, limit as int)
    }
}

/// The records that are not expired.
pub open spec fn unexpired(m: Map<Seq<u8>, SignedModel>, now: u64) -> Map<Seq<u8>, SignedModel> {
    Map::new(
        |k: Seq<u8>| m.dom().contains(k) && !is_expired(m[k].record, now),
        |k: Seq<u8>| m[k],
    )
}

/// The store after a sweep: expired records gone, everything else kept.
pub open spec fn swept(m: StoreModel, now: u64) -> StoreModel {
    StoreModel {
        records: unexpired(m.records, now),
        bindings: m.bindings,
        revision: if forall|k: Seq<u8>| #[trigger]
            m.records.dom().contains(k) ==> !is_expired(m.records[k].record, now) {
            m.revision
        } else {
            bumped(m.revision)
        },
    }
}

/// A store with nothing in it.
pub open spec fn empty_store() -> StoreModel {
    StoreModel { records: Map::empty(), bindings: Map::empty(), revision: 0 }
}

/// A store after putting records one after another, expired ones passed over.
pub open spec fn put_all(m: StoreModel, v: Seq<SignedModel>, now: u64) -> StoreModel
    decreases v.len(),
{
    if v.len() == 0 {
        m
    } else {
        let before = put_all(m, v.drop_last(), now);
        if is_expired(v.last().record, now) {
            before
        } else {
            put_result(before, v.last(), now).1
        }
    }
}

/// The store that a snapshot gives: nothing when it cannot be read, else its
/// bindings and every record in it that is still admitted.
pub open spec fn opened(snapshot: Option<Seq<u8>>, now: u64) -> StoreModel {
    match snapshot {
        None => empty_store(),
        Some(bytes) => match snapshot_decoded(bytes) {
            Err(_) => empty_store(),
            Ok(s) => put_all(
                StoreModel { records: Map::empty(), bindings: s.bindings, revision: 0 },
                s.records,
                now,
            ),
        },
    }
}

impl Store {
    /// The maps are in order, and every record is held soundly.
    pub closed spec fn wf(&self) -> bool {
        self.records.wf() && self.bindings.wf() && store_inv(self@)
    }

    /// Where the snapshot goes, if anywhere.
    pub closed spec fn place(&self) -> Option<PathBuf> {
        self.path
    }

    /// What `wf` says of what the store holds.
    pub proof fn lemma_wf(&self)
        requires
            self.wf(),
        ensures
            store_inv(self@),
    {
    }

    /// Keys and identities are 32 bytes long.
    pub proof fn lemma_key_lens(&self)
        requires
            self.wf(),
        ensures
            forall|k: Seq<u8>| #[trigger]
                self@.bindings.dom().contains(k) ==> k.len() == 32 && self@.bindings[k].len() == 32,
    {
        assert forall|k: Seq<u8>| #[trigger] self@.bindings.dom().contains(k) implies k.len() == 32
            && self@.bindings[k].len() == 32 by {
            let i = self.bindings.lemma_position(k);
            assert(self.bindings.keys()[i].len() == 32);
        }
    }

    pub fn new(path: Option<PathBuf>) -> (s: Self)
        ensures
            s.wf(),
            s@ == empty_store(),
            s.place() == path,
    {
        let s = Store { records: KeyMap::new(), bindings: KeyMap::new(), path, revision: 0 };
        proof {
            assert(s@ =~= empty_store());
        }
        s
    }

    /// Verify a record at `now` and keep it if it supersedes what is held.
    pub fn put_at(&mut self, record: SignedRecord, now: u64) -> (r: Result<PutOutcome>)
        requires
            old(self).wf(),
        ensures
            final(self).wf(),
            final(self).place() == old(self).place(),
            (outcome(r), final(self)@) == put_result(old(self)@, record@, now),
    {
        admit_record(&record, now)?;
        let key = record.key();
        let identity = record.identity();

        // A retired key is finished, whatever the new record claims.
        let mut stale = false;
        if let Some(held) = self.records.get(&key) {
            if let Some(retired) = retirement_error(held) {
                return Err(retired);
            }
            stale = !record.record.supersedes(&held.record);
        }
        // Once a key is bound to an identity it stays bound: every later record
        // must come under a delegation from that same identity.

        let mut known = false;
        if let Some(bound) = self.bindings.get(&key) {
            known = true;
            if identity != *bound {
                let mut m = key.to_string();
                m.append(" belongs to identity ");
                m.append(bound.to_string().as_str());
                m.append(", but this record claims ");
                m.append(identity.to_string().as_str());
                return Err(Error::Delegation(m));
            }
        }
        if stale {
            return Ok(PutOutcome::Stale);
        }
        let ghost before = self@;
        let ghost model = record@;
        self.records.insert(key, record);
        proof {
            assert(record_values(self.records@) =~= before.records.insert(key@, model));
        }
        if !known {
            self.bind(key, identity);
        }
        self.revision = if self.revision == u64::MAX {
            0
        } else {
            self.revision + 1
        };
        proof {
            assert(self@ =~= put_result(before, model, now).1);
            assert forall|k: Seq<u8>| #[trigger] self@.records.dom().contains(k) implies held_soundly(
                self@,
                k,
            ) by {
                if k != key@ {
                    assert(before.records.dom().contains(k));
                    assert(held_soundly(before, k));
                }
            }
        }
        Ok(PutOutcome::Stored)
    }

    /// Verify a record and keep it if it supersedes what is held.
    pub fn put(&mut self, record: SignedRecord) -> (r: Result<PutOutcome>)
        requires
            old(self).wf(),
        ensures
            final(self).wf(),
            final(self).place() == old(self).place(),
            exists|now: u64|
                (outcome(r), final(self)@) == #[trigger] put_result(old(self)@, record@, now),
    {
        let now: u64 = now_unix();
        self.put_at(record, now)
    }

    /// Pin a service key to the identity that issued it.
    fn bind(&mut self, service_key: PubKey, identity: PubKey)
        requires
            old(self).bindings.wf(),
            !old(self).bindings@.dom().contains(service_key@),
        ensures
            final(self).bindings.wf(),
            final(self).records == old(self).records,
            final(self).path == old(self).path,
            final(self).revision == old(self).revision,
            key_values(final(self).bindings@) == key_values(old(self).bindings@).insert(
                service_key@,
                identity@,
            ),
    {
        let ghost before = key_values(self.bindings@);
        self.bindings.insert(service_key, identity);
        assert(key_values(self.bindings@) =~= before.insert(service_key@, identity@));
    }

    /// The record for `key` at `now`, unless it has expired.
    pub fn get_at(&self, key: &PubKey, now: u64) -> (r: Option<SignedRecord>)
        requires
            self.wf(),
        ensures
            match r {
                Some(s) => held(self@, key@, now) == Some(s@),
                None => held(self@, key@, now) is None,
            },
    {
        match self.records.get(key) {
            Some(rec) => if rec.record.is_expired(now) {
                None
            } else {
                Some(rec.clone())
            },
            None => None,
        }
    }

    /// The record for `key`, unless it has expired.
    pub fn get(&self, key: &PubKey) -> (r: Option<SignedRecord>)
        requires
            self.wf(),
        ensures
            exists|now: u64|
                (match r {
                    Some(s) => #[trigger] held(self@, key@, now) == Some(s@),
                    None => held(self@, key@, now) is None,
                }),
    {
        let now: u64 = now_unix();
        self.get_at(key, now)
    }

    /// The identity that issued `service_key`, if one is known.
    pub fn identity_of(&self, service_key: &PubKey) -> (r: Option<PubKey>)
        requires
            self.wf(),
        ensures
            match r {
                Some(k) => self@.bindings.dom().contains(service_key@)
                    && self@.bindings[service_key@] == k@,
                None => !self@.bindings.dom().contains(service_key@),
            },
    {
        match self.bindings.get(service_key) {
            Some(k) => Some(*k),
            None => None,
        }
    }

    /// A counter that changes whenever the record set changes.
    pub fn revision(&self) -> (n: u64)
        ensures
            n == self@.revision,
    {
        self.revision
    }

    pub fn len(&self) -> (n: usize)
        requires
            self.wf(),
        ensures
            n == self@.records.len(),
            self@.records.dom().finite(),
    {
        proof {
            assert(self@.records.dom() =~= self.records@.dom());
        }
        self.records.len()
    }

    pub fn is_empty(&self) -> (b: bool)
        requires
            self.wf(),
        ensures
            b == (self@.records.len() == 0),
    {
        self.len() == 0
    }

    /// Where the snapshot goes, if anywhere.
    pub fn snapshot_path(&self) -> (p: Option<&PathBuf>)
        ensures
            match p {
                Some(p) => self.place() == Some(*p),
                None => self.place() is None,
            },
    {
        match &self.path {
            Some(p) => Some(p),
            None => None,
        }
    }
}

/// The checks every record passes before it is compared with what is held.
fn admit_record(record: &SignedRecord, now: u64) -> (r: Result<()>)
    ensures
        outcome(r) == admitted(record@, now),
{
    record.record.validate()?;
    record.verify()?;
    let issued: u64 = record.record.issued_at;
    if issued > now && issued - now > MAX_CLOCK_SKEW {
        let mut m = String::from_str("record is issued ");
        push_dec(&mut m, issued - now);
        m.append("s in the future (max skew ");
        push_dec(&mut m, MAX_CLOCK_SKEW);
        m.append("s)");
        return Err(Error::Record(m));
    }
    if record.record.is_expired(now) {
        return Err(Error::Expired(now - record.record.expires_at()));
    }
    // Authority that has run out is no authority: a service key whose
    // delegation lapsed cannot publish, even though its signature is good.

    let d = &record.record.delegation;
    if d.is_expired(now) && !record.record.is_terminal() {
        let mut m = String::from_str("the delegation over ");
        m.append(record.key().to_string().as_str());
        m.append(" from ");
        m.append(d.identity.to_string().as_str());
        m.append(" expired ");
        push_dec(&mut m, now - d.not_after);
        m.append("s ago");
        return Err(Error::Delegation(m));
    }
    Ok(())
}

impl Store {
    /// Unexpired records at `now` issued at or after `since`, oldest first.
    ///
    /// The bool is false when the batch hit `limit` and more may remain.
    pub fn since_at(&self, since: u64, limit: usize, now: u64) -> (r: (Vec<SignedRecord>, bool))
        requires
            self.wf(),
        ensures
            exists|l: Seq<SignedModel>| #[trigger]
                is_sync_list(l, self@, since, now) && signed_models(r.0@) == first_of(
                    l,
                    limit as nat,
                ) && r.1 == (l.len() <= limit),
    {
        let n: usize = self.records.len();
        let mut at: Vec<usize> = Vec::new();
        let mut times: Vec<u64> = Vec::new();
        let mut i: usize = 0;
        let ghost vs = self.records.values();
        while i < n
            invariant
                i <= n == self.records.keys().len(),
                self.wf(),
                vs == self.records.values(),
                vs.len() == n,
                at@.len() == times@.len(),
                forall|j: int| 0 <= j < at@.len() ==> #[trigger] at@[j] < i,
                forall|j: int, k: int|
                    0 <= j < k < at@.len() ==> #[trigger] at@[j] < #[trigger] at@[k],
                forall|j: int|
                    0 <= j < at@.len() ==> #[trigger] times@[j]
                        == vs[at@[j] as int].record.issued_at,
                forall|j: int|
                    0 <= j < at@.len() ==> in_sync(vs[#[trigger] at@[j] as int]@, since, now),
                forall|q: int|
                    0 <= q < i && in_sync(vs[q]@, since, now) ==> #[trigger] at@.contains(
                        q as usize,
                    ),
            decreases n - i,
        {
            let rec = self.records.value_at(i);
            let ghost before = at@;
            if rec.record.issued_at >= since && !rec.record.is_expired(now) {
                at.push(i);
                times.push(rec.record.issued_at);
                proof {
                    assert(at@ == before.push(i));
                    assert(at@[at@.len() - 1] == i);
                    assert forall|q: int|
                        0 <= q < i + 1 && in_sync(vs[q]@, since, now) implies #[trigger] at@.contains(
                        q as usize,
                    ) by {
                        if q < i {
                            assert(before.contains(q as usize));
                            let j = choose|j: int| 0 <= j < before.len() && before[j] == q as usize;
                            assert(at@[j] == q as usize);
                        }
                    }
                }
            }
            i += 1;
        }
        let p = stable_order(&times);
        let count: usize = p.len();
        let ghost l = Seq::new(p@.len(), |j: int| vs[at@[p@[j] as int] as int]@);
        proof {
            self.lemma_sync_list(at@, times@, p@, l, since, now);
        }
        let m: usize = if count <= limit {
            count
        } else {
            limit
        };
        let mut out: Vec<SignedRecord> = Vec::new();
        let mut k: usize = 0;
        while k < m
            invariant
                k <= m <= p@.len(),
                self.wf(),
                vs == self.records.values(),
                vs.len() == self.records.keys().len(),
                is_stable_order(p@, times@),
                at@.len() == times@.len(),
                forall|j: int| 0 <= j < at@.len() ==> #[trigger] at@[j] < vs.len(),
                l == Seq::new(p@.len(), |j: int| vs[at@[p@[j] as int] as int]@),
                out@.len() == k,
                forall|j: int| 0 <= j < k ==> (#[trigger] out@[j])@ == l[j],
            decreases m - k,
        {
            let q: usize = p[k];
            let a: usize = at[q];
            out.push(self.records.value_at(a).clone());
            k += 1;
        }
        proof {
            assert(signed_models(out@) =~= first_of(l, limit as nat));
        }
        (out, count <= limit)
    }

    /// The positions of the matching records, in order of time, list them as a
    /// sync does.
    proof fn lemma_sync_list(
        &self,
        at: Seq<usize>,
        times: Seq<u64>,
        p: Seq<usize>,
        l: Seq<SignedModel>,
        since: u64,
        now: u64,
    )
        requires
            self.wf(),
            at.len() == times.len(),
            is_stable_order(p, times),
            l == Seq::new(
                p.len(),
                |j: int| self.records.values()[at[p[j] as int] as int]@,
            ),
            forall|j: int| 0 <= j < at.len() ==> #[trigger] at[j] < self.records.values().len(),
            forall|j: int, k: int|
                0 <= j < k < at.len() ==> #[trigger] at[j] < #[trigger] at[k],
            forall|j: int|
                0 <= j < at.len() ==> #[trigger] times[j]
                    == self.records.values()[at[j] as int].record.issued_at,
            forall|j: int|
                0 <= j < at.len() ==> in_sync(
                    self.records.values()[#[trigger] at[j] as int]@,
                    since,
                    now,
                ),
            forall|q: int|
                0 <= q < self.records.values().len() && in_sync(
                    self.records.values()[q]@,
                    since,
                    now,
                ) ==> #[trigger] at.contains(q as usize),
            self.records.values().len() <= usize::MAX,
            at.len() <= usize::MAX,
        ensures
            is_sync_list(l, self@, since, now),
    {
        let (ks, vs) = (self.records.keys(), self.records.values());
        assert forall|j: int| 0 <= j < l.len() implies listed(self@, #[trigger] l[j], now)
            && l[j].record.issued_at >= since && l[j].record.key == ks[at[p[j] as int] as int] by {
            let a = at[p[j] as int] as int;
            self.records.lemma_at(a);
            assert(self@.records.dom().contains(ks[a]));
            assert(held_soundly(self@, ks[a]));
        }
        assert forall|k: Seq<u8>| #[trigger]
            self@.records.dom().contains(k) && !is_expired(self@.records[k].record, now)
                && self@.records[k].record.issued_at >= since implies l.contains(
            self@.records[k],
        ) by {
            let a = self.records.lemma_position(k);
            assert(in_sync(vs[a]@, since, now));
            assert(at.contains(a as usize));
            let j = choose|j: int| 0 <= j < at.len() && at[j] == a as usize;
            assert(p.contains(j as usize));
            let i = choose|i: int| 0 <= i < p.len() && p[i] == j as usize;
            assert(l[i] == self@.records[k]);
        }
        assert forall|i: int, j: int| 0 <= i < j < l.len() implies synced_before(
            #[trigger] l[i],
            #[trigger] l[j],
        ) by {
            assert(ranks_before(times, p[i], p[j]));
            if p[i] < p[j] {
                assert(at[p[i] as int] < at[p[j] as int]);
                assert(bytes_before(ks[at[p[i] as int] as int], ks[at[p[j] as int] as int]));
            }
        }
    }

    /// Unexpired records issued at or after `since`, oldest first.
    ///
    /// The bool is false when the batch hit `limit` and more may remain.
    pub fn since(&self, since: u64, limit: usize) -> (r: (Vec<SignedRecord>, bool))
        requires
            self.wf(),
        ensures
            exists|now: u64, l: Seq<SignedModel>| #[trigger]
                is_sync_list(l, self@, since, now) && signed_models(r.0@) == first_of(
                    l,
                    limit as nat,
                ) && r.1 == (l.len() <= limit),
    {
        let now: u64 = now_unix();
        self.since_at(since, limit, now)
    }

    /// Every record held at `now` for keys `identity` has issued, up to
    /// `limit`.
    pub fn identity_records_at(&self, identity: &PubKey, limit: usize, now: u64) -> (out: Vec<
        SignedRecord,
    >)
        requires
            self.wf(),
        ensures
            exists|l: Seq<SignedModel>| #[trigger]
                is_identity_list(l, self@, identity@, now) && signed_models(out@) == first_of(
                    l,
                    limit as nat,
                ),
    {
        let n: usize = self.records.len();
        let mut out: Vec<SignedRecord> = Vec::new();
        let ghost mut l: Seq<SignedModel> = seq![];
        let ghost (ks, vs) = (self.records.keys(), self.records.values());
        let mut i: usize = 0;
        proof {
            assert(signed_models(out@) =~= first_of(l, limit as nat));
        }
        while i < n
            invariant
                i <= n == self.records.keys().len(),
                self.wf(),
                ks == self.records.keys(),
                vs == self.records.values(),
                signed_models(out@) == first_of(l, limit as nat),
                forall|j: int|
                    0 <= j < l.len() ==> issued_by(self@, (#[trigger] l[j]), identity@, now)
                        && exists|q: int| 0 <= q < i && #[trigger] ks[q] == l[j].record.key,
                forall|q: int|
                    0 <= q < i && issued_by(self@, #[trigger] vs[q]@, identity@, now)
                        ==> l.contains(vs[q]@),
                forall|a: int, b: int|
                    0 <= a < b < l.len() ==> bytes_before(
                        (#[trigger] l[a]).record.key,
                        (#[trigger] l[b]).record.key,
                    ),
            decreases n - i,
        {
            let key = self.records.key_at(i);
            let rec = self.records.value_at(i);
            proof {
                assert(self@.records.dom().contains(ks[i as int]));
                assert(held_soundly(self@, ks[i as int]));
                assert(rec@ == vs[i as int]@);
                assert(rec@.record.key == ks[i as int]);
                assert(held(self@, rec@.record.key, now) == (if is_expired(rec@.record, now) {
                    None
                } else {
                    Some(rec@)
                }));
            }
            // A record's key is always bound, and to the record's identity.
            if rec.identity() == *identity && !rec.record.is_expired(now) {
                let ghost before = l;
                proof {
                    l = l.push(rec@);
                    assert(issued_by(self@, rec@, identity@, now));
                    assert forall|j: int| 0 <= j < l.len() implies issued_by(
                        self@,
                        (#[trigger] l[j]),
                        identity@,
                        now,
                    ) && exists|q: int| 0 <= q < i + 1 && #[trigger] ks[q] == l[j].record.key by {
                        if j < before.len() {
                            assert(l[j] == before[j]);
                            let q = choose|q: int| 0 <= q < i && #[trigger] ks[q] == before[j].record.key;
                            assert(ks[q] == l[j].record.key);
                        } else {
                            assert(ks[i as int] == l[j].record.key);
                        }
                    }
                    assert forall|q: int|
                        0 <= q < i + 1 && issued_by(
                            self@,
                            #[trigger] vs[q]@,
                            identity@,
                            now,
                        ) implies l.contains(vs[q]@) by {
                        if q < i {
                            assert(before.contains(vs[q]@));
                            let j = choose|j: int| 0 <= j < before.len() && before[j] == vs[q]@;
                            assert(l[j] == vs[q]@);
                        } else {
                            assert(l[before.len() as int] == vs[q]@);
                        }
                    }
                    assert forall|a: int, b: int| 0 <= a < b < l.len() implies bytes_before(
                        (#[trigger] l[a]).record.key,
                        (#[trigger] l[b]).record.key,
                    ) by {
                        assert(l[a] == before[a]);
                        if b < before.len() {
                            assert(l[b] == before[b]);
                        } else {
                            let q = choose|q: int| 0 <= q < i && #[trigger] ks[q] == before[a].record.key;
                            assert(bytes_before(ks[q], ks[i as int]));
                        }
                    }
                }
                if out.len() < limit {
                    let ghost shown = signed_models(out@);
                    out.push(rec.clone());
                    proof {
                        assert(signed_models(out@) =~= shown.push(rec@));
                        assert(first_of(before, limit as nat) =~= before);
                        assert(first_of(l, limit as nat) =~= l);
                    }
                } else {
                    proof {
                        assert(first_of(l, limit as nat) =~= first_of(before, limit as nat));
                    }
                }
            }
            i += 1;
        }
        proof {
            assert forall|k: Seq<u8>| #[trigger]
                self@.records.dom().contains(k) && !is_expired(self@.records[k].record, now)
                    && self@.bindings.dom().contains(k) && self@.bindings[k]
                    == identity@ implies l.contains(self@.records[k]) by {
                let q = self.records.lemma_position(k);
                assert(held_soundly(self@, k));
                assert(issued_by(self@, vs[q]@, identity@, now));
            }
            assert(is_identity_list(l, self@, identity@, now));
        }
        out
    }

    /// Every record this server holds for keys `identity` has issued, up to
    /// `limit`.
    ///
    /// Completeness is not something a caller can verify (a server can leave a
    /// key out), but resolution never depends on this; it is for tooling and
    /// for an operator auditing their own keys.
    pub fn identity_records(&self, identity: &PubKey, limit: usize) -> (out: Vec<SignedRecord>)
        requires
            self.wf(),
        ensures
            exists|now: u64, l: Seq<SignedModel>| #[trigger]
                is_identity_list(l, self@, identity@, now) && signed_models(out@) == first_of(
                    l,
                    limit as nat,
                ),
    {
        let now: u64 = now_unix();
        self.identity_records_at(identity, limit, now)
    }

    /// Drop records expired at `now`; returns how many went.
    pub fn purge_expired_at(&mut self, now: u64) -> (removed: usize)
        requires
            old(self).wf(),
        ensures
            final(self).wf(),
            final(self).place() == old(self).place(),
            final(self)@ == swept(old(self)@, now),
            removed == old(self)@.records.len() - final(self)@.records.len(),
    {
        let ghost before = *self;
        let mut gone: Vec<PubKey> = Vec::new();
        let n: usize = self.records.len();
        let ghost (ks, vs) = (self.records.keys(), self.records.values());
        let mut i: usize = 0;
        while i < n
            invariant
                i <= n == self.records.keys().len(),
                *self == before,
                before.wf(),
                ks == self.records.keys(),
                vs == self.records.values(),
                forall|j: int|
                    0 <= j < gone@.len() ==> exists|q: int|
                        0 <= q < i && #[trigger] ks[q] == (#[trigger] gone@[j])@ && is_expired(
                            vs[q]@.record,
                            now,
                        ),
                forall|a: int, b: int|
                    0 <= a < b < gone@.len() ==> (#[trigger] gone@[a])@ != (#[trigger] gone@[b])@,
                forall|q: int|
                    0 <= q < i && is_expired(#[trigger] vs[q]@.record, now) ==> exists|j: int|
                        0 <= j < gone@.len() && (#[trigger] gone@[j])@ == ks[q],
            decreases n - i,
        {
            let ghost old_gone = gone@;
            if self.records.value_at(i).record.is_expired(now) {
                let key = self.records.key_at(i);
                gone.push(key);
                proof {
                    assert forall|j: int| 0 <= j < gone@.len() implies exists|q: int|
                        0 <= q < i + 1 && #[trigger] ks[q] == (#[trigger] gone@[j])@ && is_expired(
                            vs[q]@.record,
                            now,
                        ) by {
                        if j < old_gone.len() {
                            assert(gone@[j] == old_gone[j]);
                            let q = choose|q: int|
                                0 <= q < i && #[trigger] ks[q] == old_gone[j]@ && is_expired(
                                    vs[q]@.record,
                                    now,
                                );
                            assert(ks[q] == gone@[j]@);
                        } else {
                            assert(ks[i as int] == gone@[j]@);
                        }
                    }
                    assert forall|a: int, b: int| 0 <= a < b < gone@.len() implies (
                    #[trigger] gone@[a])@ != (#[trigger] gone@[b])@ by {
                        assert(gone@[a] == old_gone[a]);
                        if b == old_gone.len() {
                            let q = choose|q: int|
                                0 <= q < i && #[trigger] ks[q] == old_gone[a]@ && is_expired(
                                    vs[q]@.record,
                                    now,
                                );
                            position_is_unique(ks, q);
                            position_is_unique(ks, i as int);
                        }
                    }
                    assert forall|q: int|
                        0 <= q < i + 1 && is_expired(
                            #[trigger] vs[q]@.record,
                            now,
                        ) implies exists|j: int|
                        0 <= j < gone@.len() && (#[trigger] gone@[j])@ == ks[q] by {
                        if q < i {
                            let j = choose|j: int|
                                0 <= j < old_gone.len() && (#[trigger] old_gone[j])@ == ks[q];
                            assert(gone@[j]@ == ks[q]);
                        } else {
                            assert(gone@[old_gone.len() as int]@ == ks[q]);
                        }
                    }
                }
            }
            i += 1;
        }
        proof {
            assert forall|j: int| 0 <= j < gone@.len() implies self.records@.dom().contains(
                (#[trigger] gone@[j])@,
            ) && is_expired(self.records@[gone@[j]@]@.record, now) by {
                let q = choose|q: int|
                    0 <= q < n && #[trigger] ks[q] == gone@[j]@ && is_expired(vs[q]@.record, now);
                self.records.lemma_at(q);
            }
            self.records.lemma_len();
        }
        let mut j: usize = 0;
        while j < gone.len()
            invariant
                j <= gone@.len(),
                before.wf(),
                self.records.wf(),
                self.bindings == before.bindings,
                self.path == before.path,
                self.revision == before.revision,
                before.records@.dom().finite(),
                self.records@.dom().finite(),
                self.records@.len() == before.records@.len() - j,
                forall|a: int, b: int|
                    0 <= a < b < gone@.len() ==> (#[trigger] gone@[a])@ != (#[trigger] gone@[b])@,
                forall|a: int|
                    0 <= a < gone@.len() ==> before.records@.dom().contains((#[trigger] gone@[a])@)
                        && is_expired(before.records@[gone@[a]@]@.record, now),
                forall|k: Seq<u8>| #[trigger]
                    self.records@.dom().contains(k) <==> before.records@.dom().contains(k)
                        && !(exists|a: int| 0 <= a < j && (#[trigger] gone@[a])@ == k),
                forall|k: Seq<u8>| #[trigger]
                    self.records@.dom().contains(k) ==> self.records@[k] == before.records@[k],
            decreases gone@.len() - j,
        {
            let ghost mid = self.records@;
            let k = gone[j];
            proof {
                assert(mid.dom().contains(k@)) by {
                    if exists|a: int| 0 <= a < j && (#[trigger] gone@[a])@ == k@ {
                        let a = choose|a: int| 0 <= a < j && (#[trigger] gone@[a])@ == k@;
                        assert(gone@[a]@ != gone@[j as int]@);
                    }
                }
            }
            self.records.remove(&k);
            proof {
                assert forall|q: Seq<u8>| #[trigger]
                    self.records@.dom().contains(q) <==> before.records@.dom().contains(q)
                        && !(exists|a: int| 0 <= a < j + 1 && (#[trigger] gone@[a])@ == q) by {
                    if q == k@ {
                        assert(gone@[j as int]@ == q);
                    }
                    if exists|a: int| 0 <= a < j && (#[trigger] gone@[a])@ == q {
                        assert(!mid.dom().contains(q));
                    }
                    if mid.dom().contains(q) && q != k@ {
                        assert(self.records@.dom().contains(q));
                    }
                }
            }
            j += 1;
        }
        if gone.len() > 0 {
            self.revision = if self.revision == u64::MAX {
                0
            } else {
                self.revision + 1
            };
        }
        proof {
            assert forall|k: Seq<u8>|
                before.records@.dom().contains(k) && is_expired(
                    before.records@[k]@.record,
                    now,
                ) implies exists|a: int| 0 <= a < gone@.len() && (#[trigger] gone@[a])@ == k by {
                let q = before.records.lemma_position(k);
                assert(is_expired(vs[q]@.record, now));
            }
            assert(self@.records =~= unexpired(before@.records, now));
            if gone@.len() > 0 {
                let k = gone@[0]@;
                assert(before@.records.dom().contains(k));
                assert(is_expired(before@.records[k].record, now));
            }
            assert(self@ =~= swept(before@, now));
            assert forall|k: Seq<u8>| #[trigger] self@.records.dom().contains(k) implies held_soundly(
                self@,
                k,
            ) by {
                assert(before@.records.dom().contains(k));
                assert(held_soundly(before@, k));
            }
            assert(self@.records.dom() =~= self.records@.dom());
            assert(before@.records.dom() =~= before.records@.dom());
        }
        gone.len()
    }

    /// Drop expired records; returns how many went.
    pub fn purge_expired(&mut self) -> (removed: usize)
        requires
            old(self).wf(),
        ensures
            final(self).wf(),
            final(self).place() == old(self).place(),
            exists|now: u64| final(self)@ == #[trigger] swept(old(self)@, now),
            removed == old(self)@.records.len() - final(self)@.records.len(),
    {
        let now: u64 = now_unix();
        self.purge_expired_at(now)
    }

    /// The snapshot: records and bindings in the order of their keys. Bindings
    /// are kept even for keys whose records have lapsed.
    pub fn snapshot(&self) -> (bytes: Vec<u8>)
        requires
            self.wf(),
        ensures
            exists|rs: Seq<SignedModel>, bs: Seq<(Seq<u8>, Seq<u8>)>|
                is_snapshot_of(rs, bs, self@) && bytes@ == #[trigger] snapshot_bytes(rs, bs),
    {
        let bytes = encode_snapshot(&self.records, &self.bindings);
        proof {
            let rs = signed_models(self.records.values());
            let bs = binding_pairs(self.bindings.keys(), self.bindings.values());
            let ks = self.records.keys();
            assert forall|i: int| 0 <= i < rs.len() implies rs[i].record.key == ks[i]
                && self@.records.dom().contains(ks[i]) && self@.records[ks[i]]
                == #[trigger] rs[i] by {
                self.records.lemma_at(i);
                assert(self@.records.dom().contains(ks[i]));
                assert(held_soundly(self@, ks[i]));
            }
            assert forall|k: Seq<u8>| #[trigger] self@.records.dom().contains(k) implies rs.contains(
                self@.records[k],
            ) by {
                let i = self.records.lemma_position(k);
                assert(rs[i] == self@.records[k]);
            }
            assert forall|i: int| 0 <= i < bs.len() implies (#[trigger] bs[i]).0
                == self.bindings.keys()[i] && self@.bindings.dom().contains(bs[i].0)
                && self@.bindings[bs[i].0] == bs[i].1 by {
                self.bindings.lemma_at(i);
            }
            assert forall|k: Seq<u8>| #[trigger]
                self@.bindings.dom().contains(k) implies bs.contains((k, self@.bindings[k])) by {
                let i = self.bindings.lemma_position(k);
                assert(bs[i] == (k, self@.bindings[k]));
            }
            assert(is_snapshot_of(rs, bs, self@));
        }
        bytes
    }

    /// Open a store at `now`, loading a snapshot when there is one.
    ///
    /// Records are verified again on load: a snapshot that was tampered with on
    /// disk cannot inject anything the signing key did not sign. A snapshot that
    /// cannot be read is no reason to refuse to start: an empty server recovers
    /// its records from peers.
    pub fn open_at(path: Option<PathBuf>, snapshot: Option<&[u8]>, now: u64) -> (s: Self)
        ensures
            s.wf(),
            s.place() == path,
            s@ == opened(opt_bytes(snapshot), now),
    {
        let bytes = match snapshot {
            Some(bytes) => bytes,
            None => return Store::new(path),
        };
        let loaded = match decode_snapshot(bytes) {
            Ok(loaded) => loaded,
            Err(_) => return Store::new(path),
        };
        let ghost model = loaded@;
        let Snapshot { records, bindings } = loaded;
        let mut store = Store { records: KeyMap::new(), bindings, path, revision: 0 };
        let ghost start = StoreModel {
            records: Map::empty(),
            bindings: model.bindings,
            revision: 0,
        };
        proof {
            assert(store@ =~= start);
        }
        let mut i: usize = 0;
        proof {
            assert(model.records.subrange(0, 0) =~= seq![]);
        }
        while i < records.len()
            invariant
                i <= records@.len(),
                model.records == signed_models(records@),
                store.wf(),
                store.place() == path,
                store@ == put_all(start, model.records.subrange(0, i as int), now),
            decreases records@.len() - i,
        {
            let rec = &records[i];
            proof {
                let done = model.records.subrange(0, i + 1);
                assert(done.drop_last() =~= model.records.subrange(0, i as int));
                assert(done.last() == rec@);
            }
            if !rec.record.is_expired(now) {
                let _ = store.put_at(rec.clone(), now);
            }
            i += 1;
        }
        proof {
            assert(model.records.subrange(0, i as int) =~= model.records);
        }
        store
    }

    /// Open a store, loading a snapshot when there is one.
    pub fn open(path: Option<PathBuf>, snapshot: Option<&[u8]>) -> (s: Self)
        ensures
            s.wf(),
            s.place() == path,
            exists|now: u64| s@ == #[trigger] opened(opt_bytes(snapshot), now),
    {
        let now: u64 = now_unix();
        Self::open_at(path, snapshot, now)
    }
}

/// A record that a sync from `since` shows.
pub open spec fn in_sync(s: SignedModel, since: u64, now: u64) -> bool {
    s.record.issued_at >= since && !is_expired(s.record, now)
}

/// A record that the listing of an identity shows.
pub open spec fn issued_by(m: StoreModel, s: SignedModel, identity: Seq<u8>, now: u64) -> bool {
    &&& listed(m, s, now)
    &&& m.bindings.dom().contains(s.record.key)
    &&& m.bindings[s.record.key] == identity
}

/// `rs` and `bs` are what the store holds, each once, in the order of the
/// keys.
pub open spec fn is_snapshot_of(
    rs: Seq<SignedModel>,
    bs: Seq<(Seq<u8>, Seq<u8>)>,
    m: StoreModel,
) -> bool {
    &&& forall|i: int|
        0 <= i < rs.len() ==> m.records.dom().contains((#[trigger] rs[i]).record.key)
            && m.records[rs[i].record.key] == rs[i]
    &&& forall|k: Seq<u8>| #[trigger]
        m.records.dom().contains(k) ==> rs.contains(m.records[k])
    &&& forall|i: int, j: int|
        0 <= i < j < rs.len() ==> bytes_before(
            (#[trigger] rs[i]).record.key,
            (#[trigger] rs[j]).record.key,
        )
    &&& forall|i: int|
        0 <= i < bs.len() ==> m.bindings.dom().contains((#[trigger] bs[i]).0)
            && m.bindings[bs[i].0] == bs[i].1
    &&& forall|k: Seq<u8>| #[trigger]
        m.bindings.dom().contains(k) ==> bs.contains((k, m.bindings[k]))
    &&& forall|i: int, j: int|
        0 <= i < j < bs.len() ==> bytes_before((#[trigger] bs[i]).0, (#[trigger] bs[j]).0)
}

} // verus!
