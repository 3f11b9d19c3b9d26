//! Answer cache.
//!
//! Positive answers live until the record's own expiry; "no such key" is cached
//! briefly so a burst of lookups for an unpublished key does not hammer the
//! server. Records are self-signed, so a cached answer is exactly as
//! trustworthy as a fresh one until it expires.

use vstd::prelude::*;
use vstd::set_lib::*;

use crate::key::{PubKey, key_len};
use crate::keymap::KeyMap;
use crate::record::{SignedModel, SignedRecord, is_expired, now_unix};

verus! {

broadcast use key_len;

/// How long a negative answer is remembered, in seconds.
pub const NEGATIVE_TTL: u64 = 30;

/// What the cache knows of a key.
pub enum Entry {
    /// Its record.
    Found(Box<SignedRecord>),
    /// That there was none, until this time.
    Missing { until: u64 },
}

/// An [`Entry`] taken by the view of its record.
#[verifier::ext_equal]
pub enum EntryModel {
    Found(SignedModel),
    Missing { until: u64 },
}

impl View for Entry {
    type V = EntryModel;

    open spec fn view(&self) -> EntryModel {
        match *self {
            Entry::Found(rec) => EntryModel::Found((*rec)@),
            Entry::Missing { until } => EntryModel::Missing { until },
        }
    }
}

impl Clone for Entry {
    fn clone(&self) -> (r: Self)
        ensures
            r@ == self@,
    {
        match self {
            Entry::Found(rec) => Entry::Found(Box::new((**rec).clone())),
            Entry::Missing { until } => Entry::Missing { until: *until },
        }
    }
}

/// An entry that still answers.
pub open spec fn answers(e: EntryModel, now: u64) -> bool {
    match e {
        EntryModel::Found(s) => !is_expired(s.record, now),
        EntryModel::Missing { until } => now < until,
    }
}

/// What a cache says of a key: a record, that there is none, or nothing.
pub open spec fn cache_hit(m: Map<Seq<u8>, EntryModel>, key: Seq<u8>, now: u64) -> Option<
    Option<SignedModel>,
> {
    if m.dom().contains(key) && answers(m[key], now) {
        match m[key] {
            EntryModel::Found(s) => Some(Some(s)),
            EntryModel::Missing { .. } => Some(None),
        }
    } else {
        None
    }
}

/// A cache after it was asked: an entry that no longer answers is gone.
pub open spec fn asked(
    m: Map<Seq<u8>, EntryModel>,
    key: Seq<u8>,
    now: u64,
) -> Map<Seq<u8>, EntryModel> {
    if m.dom().contains(key) && !answers(m[key], now) {
        m.remove(key)
    } else {
        m
    }
}

/// When a negative answer given at `now` is forgotten.
pub open spec fn negative_until(now: u64) -> u64 {
    if now + NEGATIVE_TTL > u64::MAX {
        u64::MAX
    } else {
        (now + NEGATIVE_TTL) as u64
    }
}

/// The entries that still answer.
pub open spec fn answering(m: Map<Seq<u8>, EntryModel>, now: u64) -> Map<Seq<u8>, EntryModel> {
    Map::new(|k: Seq<u8>| m.dom().contains(k) && answers(m[k], now), |k: Seq<u8>| m[k])
}

/// The answer a cache gave, taken by its view.
pub open spec fn hit_model(r: Option<Option<SignedRecord>>) -> Option<Option<SignedModel>> {
    match r {
        Some(Some(s)) => Some(Some(s@)),
        Some(None) => Some(None),
        None => None,
    }
}

/// A small TTL cache keyed by public key.
pub struct Cache {
    entries: KeyMap<Entry>,
}

/// A map of entries taken by their views.
pub open spec fn entry_values(m: Map<Seq<u8>, Entry>) -> Map<Seq<u8>, EntryModel> {
    Map::new(|k: Seq<u8>| m.dom().contains(k), |k: Seq<u8>| m[k]@)
}

impl View for Cache {
    type V = Map<Seq<u8>, EntryModel>;

    closed spec fn view(&self) -> Map<Seq<u8>, EntryModel> {
        entry_values(self.entries@)
    }
}

impl Entry {
    fn answers(&self, now: u64) -> (b: bool)
        ensures
            b == answers(self@, now),
    {
        match self {
            Entry::Found(rec) => !rec.record.is_expired(now),
            Entry::Missing { until } => now < *until,
        }
    }
}

impl Cache {
    /// The entries are in order.
    pub closed spec fn wf(&self) -> bool {
        self.entries.wf()
    }

    pub fn new() -> (c: Self)
        ensures
            c.wf(),
            c@ == Map::<Seq<u8>, EntryModel>::empty(),
    {
        let c = Cache { entries: KeyMap::new() };
        assert(c@ =~= Map::<Seq<u8>, EntryModel>::empty());
        c
    }

    /// `Some(Some(record))` on a positive hit, `Some(None)` on a cached
    /// negative, `None` when the cache cannot answer at `now`.
    pub fn get_at(&mut self, key: &PubKey, now: u64) -> (r: Option<Option<SignedRecord>>)
        requires
            old(self).wf(),
        ensures
            final(self).wf(),
            hit_model(r) == cache_hit(old(self)@, key@, now),
            final(self)@ == asked(old(self)@, key@, now),
    {
        let ghost before = self@;
        match self.entries.get(key) {
            None => None,
            Some(e) => {
                if e.answers(now) {
                    return match e {
                        Entry::Found(rec) => Some(Some((**rec).clone())),
                        Entry::Missing { .. } => Some(None),
                    };
                }
                self.entries.remove(key);
                assert(self@ =~= before.remove(key@));
                None
            },
        }
    }

    /// `Some(Some(record))` on a positive hit, `Some(None)` on a cached
    /// negative, `None` when the cache cannot answer.
    pub fn get(&mut self, key: &PubKey) -> (r: Option<Option<SignedRecord>>)
        requires
            old(self).wf(),
        ensures
            final(self).wf(),
            exists|now: u64|
                hit_model(r) == #[trigger] cache_hit(old(self)@, key@, now) && final(self)@
                    == asked(old(self)@, key@, now),
    {
        let now: u64 = now_unix();
        self.get_at(key, now)
    }

    pub fn put(&mut self, record: SignedRecord)
        requires
            old(self).wf(),
        ensures
            final(self).wf(),
            final(self)@ == old(self)@.insert(record@.record.key, EntryModel::Found(record@)),
    {
        let ghost before = self@;
        let key = record.key();
        self.entries.insert(key, Entry::Found(Box::new(record)));
        assert(self@ =~= before.insert(record@.record.key, EntryModel::Found(record@)));
    }

    /// Remember from `now` on that there is no record for `key`.
    pub fn put_missing_at(&mut self, key: PubKey, now: u64)
        requires
            old(self).wf(),
        ensures
            final(self).wf(),
            final(self)@ == old(self)@.insert(
                key@,
                EntryModel::Missing { until: negative_until(now) },
            ),
    {
        let ghost before = self@;
        let until: u64 = now.saturating_add(NEGATIVE_TTL);
        self.entries.insert(key, Entry::Missing { until });
        assert(self@ =~= before.insert(key@, EntryModel::Missing { until }));
    }

    /// Remember for a while that there is no record for `key`.
    pub fn put_missing(&mut self, key: PubKey)
        requires
            old(self).wf(),
        ensures
            final(self).wf(),
            exists|now: u64|
                final(self)@ == old(self)@.insert(
                    key@,
                    EntryModel::Missing { until: #[trigger] negative_until(now) },
                ),
    {
        let now: u64 = now_unix();
        self.put_missing_at(key, now)
    }

    pub fn invalidate(&mut self, key: &PubKey)
        requires
            old(self).wf(),
        ensures
            final(self).wf(),
            final(self)@ == old(self)@.remove(key@),
    {
        let ghost before = self@;
        self.entries.remove(key);
        assert(self@ =~= before.remove(key@));
    }

    pub fn clear(&mut self)
        ensures
            final(self).wf(),
            final(self)@ == Map::<Seq<u8>, EntryModel>::empty(),
    {
        self.entries = KeyMap::new();
        assert(self@ =~= Map::<Seq<u8>, EntryModel>::empty());
    }

    /// Drop entries that have expired at `now`; returns how many were removed.
    pub fn purge_at(&mut self, now: u64) -> (removed: usize)
        requires
            old(self).wf(),
        ensures
            final(self).wf(),
            final(self)@ == answering(old(self)@, now),
            removed == old(self)@.len() - final(self)@.len(),
    {
        let n: usize = self.entries.len();
        let ghost (ks, vs) = (self.entries.keys(), self.entries.values());
        let mut kept: KeyMap<Entry> = KeyMap::new();
        let mut i: usize = 0;
        while i < n
            invariant
                i <= n == self.entries.keys().len(),
                self.entries.wf(),
                kept.wf(),
                *self == *old(self),
                ks == self.entries.keys(),
                vs == self.entries.values(),
                forall|k: Seq<u8>| #[trigger]
                    kept@.dom().contains(k) <==> exists|j: int|
                        0 <= j < i && #[trigger] ks[j] == k && answers(vs[j]@, now),
                forall|k: Seq<u8>| #[trigger]
                    kept@.dom().contains(k) ==> self.entries@.dom().contains(k) && kept@[k]@
                        == self.entries@[k]@,
            decreases n - i,
        {
            let ghost before = kept@;
            let e = self.entries.value_at(i);
            if e.answers(now) {
                let key = self.entries.key_at(i);
                kept.insert(key, e.clone());
            }
            proof {
                assert forall|k: Seq<u8>| #[trigger]
                    kept@.dom().contains(k) <==> exists|j: int|
                        0 <= j < i + 1 && #[trigger] ks[j] == k && answers(vs[j]@, now) by {
                    if kept@.dom().contains(k) {
                        if before.dom().contains(k) {
                            let j = choose|j: int|
                                0 <= j < i && #[trigger] ks[j] == k && answers(vs[j]@, now);
                            assert(ks[j] == k);
                        } else {
                            assert(ks[i as int] == k);
                        }
                    }
                    if exists|j: int|
                        0 <= j < i + 1 && #[trigger] ks[j] == k && answers(vs[j]@, now) {
                        let j = choose|j: int|
                            0 <= j < i + 1 && #[trigger] ks[j] == k && answers(vs[j]@, now);
                        if j < i {
                            assert(ks[j] == k);
                            assert(before.dom().contains(k));
                        }
                    }
                }
            }
            i += 1;
        }
        proof {
            assert(entry_values(kept@) =~= answering(self@, now)) by {
                assert forall|k: Seq<u8>| #[trigger]
                    kept@.dom().contains(k) <==> self@.dom().contains(k) && answers(
                        self@[k],
                        now,
                    ) by {
                    if kept@.dom().contains(k) {
                        let j = choose|j: int|
                            0 <= j < n && #[trigger] ks[j] == k && answers(vs[j]@, now);
                        self.entries.lemma_at(j);
                    }
                    if self@.dom().contains(k) && answers(self@[k], now) {
                        let j = self.entries.lemma_position(k);
                        assert(ks[j] == k);
                    }
                }
            }
            assert(kept@.dom().subset_of(self.entries@.dom()));
            self.entries.lemma_len();
            kept.lemma_len();
            lemma_len_subset(kept@.dom(), self.entries@.dom());
            assert(self@.dom() =~= self.entries@.dom());
            assert(entry_values(kept@).dom() =~= kept@.dom());
        }
        let removed: usize = n - kept.len();
        self.entries = kept;
        removed
    }

    /// Drop expired entries; returns how many were removed.
    pub fn purge(&mut self) -> (removed: usize)
        requires
            old(self).wf(),
        ensures
            final(self).wf(),
            exists|now: u64| final(self)@ == #[trigger] answering(old(self)@, now),
            removed == old(self)@.len() - final(self)@.len(),
    {
        let now: u64 = now_unix();
        self.purge_at(now)
    }

    pub fn len(&self) -> (n: usize)
        requires
            self.wf(),
        ensures
            n == self@.len(),
            self@.dom().finite(),
    {
        proof {
            assert(self@.dom() =~= self.entries@.dom());
        }
        self.entries.len()
    }

    pub fn is_empty(&self) -> (b: bool)
        requires
            self.wf(),
        ensures
            b == (self@.len() == 0),
    {
        self.len() == 0
    }
}

impl Default for Cache {
    fn default() -> (c: Self)
        ensures
            c.wf(),
            c@ == Map::<Seq<u8>, EntryModel>::empty(),
    {
        Self::new()
    }
}

// ---------------------------------------------------------------------------
// Laws
// ---------------------------------------------------------------------------

/// A cached record is served as it was put in, until it expires.
pub proof fn a_cached_record_is_served(m: Map<Seq<u8>, EntryModel>, s: SignedRecord, now: u64)
    ensures
        cache_hit(m.insert(s@.record.key, EntryModel::Found(s@)), s@.record.key, now) == (
        if is_expired(s@.record, now) {
            None
        } else {
            Some(Some(s@))
        }),
{
}

/// A negative answer is remembered for its time and no longer.
pub proof fn a_negative_answer_is_remembered(
    m: Map<Seq<u8>, EntryModel>,
    key: Seq<u8>,
    now: u64,
    later: u64,
)
    requires
        now <= later,
        now + NEGATIVE_TTL <= u64::MAX,
    ensures
        cache_hit(
            m.insert(key, EntryModel::Missing { until: negative_until(now) }),
            key,
            later,
        ) == (if later - now < NEGATIVE_TTL {
            Some(None::<SignedModel>)
        } else {
            None
        }),
{
}

/// Neither a sweep nor a lookup changes what the cache answers from then on.
pub proof fn sweeping_changes_no_cached_answer(
    m: Map<Seq<u8>, EntryModel>,
    key: Seq<u8>,
    other: Seq<u8>,
    now: u64,
    later: u64,
)
    requires
        now <= later,
    ensures
        cache_hit(answering(m, now), key, later) == cache_hit(m, key, later),
        cache_hit(asked(m, other, now), key, later) == cache_hit(m, key, later),
{
}

} // verus!
